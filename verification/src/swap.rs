//! The swap transaction: copying one profile's game data over that of other
//! profiles, with the overwritten data kept as a backup.
//!
//! The transaction touches the disk at every turn, so it is written as a
//! machine. A [`SwapState`] names the one disk operation that is due
//! ([`SwapState::action`]); the caller performs it and reports how it went
//! ([`SwapState::advance`]); when the machine has finished,
//! [`SwapState::result`] gives the outcome log. What the machine decides is
//! fixed by the spec functions [`after_event`] and [`pending_action`].

use vstd::prelude::*;
use crate::text::copy_text;
use crate::text::join_text;
use crate::text::texts;

verus! {

/// The name of the directory, under the data root, that holds the backups.
pub open spec fn backup_namespace() -> Seq<char> {
    "dunabackups"@
}

/// The name of the directory, under the data root, that holds the backups.
pub fn backup_namespace_name() -> (r: String)
    ensures
        r@ == backup_namespace(),
{
    copy_text("dunabackups")
}

/// The place of one game's data for one profile: under the data root, or
/// under the backup namespace.
#[derive(Debug)]
pub struct Slot {
    pub backup: bool,
    pub profile: String,
    pub game: String,
}

/// A slot as contracts see it.
pub struct SlotView {
    pub backup: bool,
    pub profile: Seq<char>,
    pub game: Seq<char>,
}

impl View for Slot {
    type V = SlotView;

    open spec fn view(&self) -> SlotView {
        SlotView { backup: self.backup, profile: self.profile@, game: self.game@ }
    }
}

/// The names that lead from the data root to a slot's directory.
pub open spec fn slot_segments(slot: SlotView) -> Seq<Seq<char>> {
    if slot.backup {
        seq![backup_namespace(), slot.profile, slot.game]
    } else {
        seq![slot.profile, slot.game]
    }
}

impl Slot {
    /// The names that lead from the data root to this slot's directory, one
    /// for each level.
    pub fn segments(&self) -> (r: Vec<String>)
        ensures
            texts(r@) == slot_segments(self@),
    {
        let mut r: Vec<String> = Vec::new();
        if self.backup {
            r.push(backup_namespace_name());
        }
        r.push(self.profile.clone());
        r.push(self.game.clone());
        assert(texts(r@) =~= slot_segments(self@));
        r
    }
}

/// The disk operation that a transaction is waiting for.
#[derive(Debug)]
pub enum SwapAction {
    /// Create the backup namespace directory, with its parents.
    PrepareBackups,
    /// Find out whether the slot's directory exists.
    Probe(Slot),
    /// Delete the slot's directory with all it holds.
    Remove(Slot),
    /// Create the slot's directory, with its parents.
    Create(Slot),
    /// Copy the tree under `from` into `to`.
    Copy { from: Slot, to: Slot },
    /// Nothing is left to do.
    Finish,
}

/// A disk operation as contracts see it.
pub enum ActionView {
    PrepareBackups,
    Probe(SlotView),
    Remove(SlotView),
    Create(SlotView),
    Copy { from: SlotView, to: SlotView },
    Finish,
}

impl View for SwapAction {
    type V = ActionView;

    open spec fn view(&self) -> ActionView {
        match *self {
            SwapAction::PrepareBackups => ActionView::PrepareBackups,
            SwapAction::Probe(s) => ActionView::Probe(s@),
            SwapAction::Remove(s) => ActionView::Remove(s@),
            SwapAction::Create(s) => ActionView::Create(s@),
            SwapAction::Copy { from, to } => ActionView::Copy { from: from@, to: to@ },
            SwapAction::Finish => ActionView::Finish,
        }
    }
}

/// How the disk operation that was due went.
#[derive(Debug)]
pub enum SwapEvent {
    /// Answer to a probe: whether the directory exists.
    Present(bool),
    /// The operation succeeded.
    Done,
    /// The operation failed, with the reason as text.
    Failed(String),
}

/// An event as contracts see it.
pub enum EventView {
    Present(bool),
    Done,
    Failed(Seq<char>),
}

impl View for SwapEvent {
    type V = EventView;

    open spec fn view(&self) -> EventView {
        match *self {
            SwapEvent::Present(b) => EventView::Present(b),
            SwapEvent::Done => EventView::Done,
            SwapEvent::Failed(m) => EventView::Failed(m@),
        }
    }
}

/// What a transaction is waiting for.
#[derive(Clone, Copy, PartialEq, Eq, Structural, Debug)]
pub enum Phase {
    /// The creation of the backup namespace.
    BackupRoot,
    /// Whether the source holds data for the game.
    Source,
    /// Whether the target holds data for the game.
    Target,
    /// Whether an earlier backup is in the target's backup slot.
    OldBackup,
    /// The removal of the earlier backup.
    BackupClear,
    /// The creation of the backup slot.
    BackupCreate,
    /// The copy of the target's data into the backup slot.
    BackupCopy,
    /// The removal of the target's data.
    TargetClear,
    /// The creation of the target's directory.
    TargetCreate,
    /// The copy of the source's data into the target.
    TargetCopy,
    /// Nothing: the transaction is over.
    Finished,
}

/// What happened to one pair of target and game.
#[derive(Clone, Copy, PartialEq, Eq, Structural, Debug)]
pub enum OutcomeKind {
    /// The source has no data for the game: the pair was skipped.
    NoSource,
    /// The earlier backup could not be removed: the pair was skipped.
    OldBackupKept,
    /// The backup slot could not be created: the pair was skipped.
    BackupDirFailed,
    /// The target's data is now in its backup slot.
    BackedUp,
    /// The target's data could not be copied to the backup slot: the pair
    /// was skipped.
    BackupFailed,
    /// The target's data could not be removed.
    ClearFailed,
    /// The target's directory could not be created.
    TargetDirFailed,
    /// The source's data is now in the target.
    Swapped,
    /// The source's data could not be copied to the target.
    CopyFailed,
}

/// The weight of a line of the outcome log.
#[derive(Clone, Copy, PartialEq, Eq, Structural, Debug)]
pub enum Severity {
    Info,
    Warning,
    Error,
}

/// The weight of each kind of outcome. Only what fails once the target's own
/// data is at stake is an error.
pub open spec fn severity_of(kind: OutcomeKind) -> Severity {
    match kind {
        OutcomeKind::NoSource => Severity::Warning,
        OutcomeKind::OldBackupKept => Severity::Warning,
        OutcomeKind::BackupDirFailed => Severity::Warning,
        OutcomeKind::BackedUp => Severity::Info,
        OutcomeKind::BackupFailed => Severity::Warning,
        OutcomeKind::ClearFailed => Severity::Error,
        OutcomeKind::TargetDirFailed => Severity::Error,
        OutcomeKind::Swapped => Severity::Info,
        OutcomeKind::CopyFailed => Severity::Error,
    }
}

impl OutcomeKind {
    /// The weight of this kind of outcome.
    pub fn severity(&self) -> (r: Severity)
        ensures
            r == severity_of(*self),
    {
        match self {
            OutcomeKind::NoSource => Severity::Warning,
            OutcomeKind::OldBackupKept => Severity::Warning,
            OutcomeKind::BackupDirFailed => Severity::Warning,
            OutcomeKind::BackedUp => Severity::Info,
            OutcomeKind::BackupFailed => Severity::Warning,
            OutcomeKind::ClearFailed => Severity::Error,
            OutcomeKind::TargetDirFailed => Severity::Error,
            OutcomeKind::Swapped => Severity::Info,
            OutcomeKind::CopyFailed => Severity::Error,
        }
    }
}

/// One entry of the outcome log: what happened, to which target and game,
/// and the reason that the disk gave where an operation failed (empty
/// otherwise).
#[derive(Debug)]
pub struct Outcome {
    pub kind: OutcomeKind,
    pub target: String,
    pub game: String,
    pub reason: String,
}

/// An outcome as contracts see it.
pub struct OutcomeView {
    pub kind: OutcomeKind,
    pub target: Seq<char>,
    pub game: Seq<char>,
    pub reason: Seq<char>,
}

impl View for Outcome {
    type V = OutcomeView;

    open spec fn view(&self) -> OutcomeView {
        OutcomeView {
            kind: self.kind,
            target: self.target@,
            game: self.game@,
            reason: self.reason@,
        }
    }
}

/// The views of a list of outcomes.
pub open spec fn outcomes(v: Seq<Outcome>) -> Seq<OutcomeView> {
    Seq::new(v.len(), |i: int| v[i]@)
}


/// A transaction as contracts see it: the request, what it waits for, the
/// pair of target and game it works on, and the outcomes so far.
pub struct StateView {
    pub source: Seq<char>,
    pub source_is_backup: bool,
    pub targets: Seq<Seq<char>>,
    pub games: Seq<Seq<char>>,
    pub phase: Phase,
    pub target: int,
    pub game: int,
    pub log: Seq<OutcomeView>,
}

/// Whether a transaction in this phase works on a pair of target and game.
pub open spec fn in_pair(phase: Phase) -> bool {
    phase != Phase::BackupRoot && phase != Phase::Finished
}

/// While a transaction works on a pair, the pair is one of the request.
pub open spec fn well_formed(s: StateView) -> bool {
    in_pair(s.phase) ==> 0 <= s.target < s.targets.len() && 0 <= s.game < s.games.len()
}

/// A transaction before its first operation.
pub open spec fn initial(
    source: Seq<char>,
    source_is_backup: bool,
    targets: Seq<Seq<char>>,
    games: Seq<Seq<char>>,
) -> StateView {
    StateView {
        source,
        source_is_backup,
        targets,
        games,
        phase: Phase::BackupRoot,
        target: 0,
        game: 0,
        log: Seq::empty(),
    }
}

/// `s` in another phase.
pub open spec fn in_phase(s: StateView, phase: Phase) -> StateView {
    StateView { phase, ..s }
}

/// `s` behind the creation of the backup namespace: at the first pair, or
/// finished where the request holds no pair.
pub open spec fn at_first_pair(s: StateView) -> StateView {
    if s.targets.len() == 0 || s.games.len() == 0 {
        in_phase(s, Phase::Finished)
    } else {
        StateView { phase: Phase::Source, target: 0, game: 0, ..s }
    }
}

/// `s` at the pair that follows: the next game of the same target, then the
/// first game of the next target; finished behind the last pair.
pub open spec fn at_next_pair(s: StateView) -> StateView {
    if s.game + 1 < s.games.len() {
        StateView { phase: Phase::Source, game: s.game + 1, ..s }
    } else if s.target + 1 < s.targets.len() {
        StateView { phase: Phase::Source, target: s.target + 1, game: 0, ..s }
    } else {
        in_phase(s, Phase::Finished)
    }
}

/// `s` with one more outcome, for the pair it works on.
pub open spec fn recorded(s: StateView, kind: OutcomeKind, reason: Seq<char>) -> StateView {
    StateView {
        log: s.log.push(
            OutcomeView { kind, target: s.targets[s.target], game: s.games[s.game], reason },
        ),
        ..s
    }
}

/// `s` with the outcome that ends its pair, at the pair that follows.
pub open spec fn settled(s: StateView, kind: OutcomeKind, reason: Seq<char>) -> StateView {
    at_next_pair(recorded(s, kind, reason))
}

/// The transaction after one event. An event of a sort that the phase does not
/// wait for leaves the transaction as it is.
///
/// The transaction goes on to the first pair whether the backup namespace
/// could be created or not: where it could not, the creation of a backup
/// slot fails in its turn, and that failure is the warning of its pair.
///
/// For each pair: a source without data for the game ends the pair with a
/// warning. Where the target holds data, an earlier backup in its slot is
/// removed, the slot created and the target's data copied there; a failure of
/// any of the three ends the pair with a warning, the target untouched. Then
/// the target's data, if there was any, is removed, its directory created and
/// the source's data copied there; a failure of any of these ends the pair
/// with an error.
pub open spec fn after_event(s: StateView, e: EventView) -> StateView {
    match s.phase {
        Phase::BackupRoot => match e {
            EventView::Done => at_first_pair(s),
            EventView::Failed(_) => at_first_pair(s),
            EventView::Present(_) => s,
        },
        Phase::Source => match e {
            EventView::Present(true) => in_phase(s, Phase::Target),
            EventView::Present(false) => settled(s, OutcomeKind::NoSource, Seq::empty()),
            _ => s,
        },
        Phase::Target => match e {
            EventView::Present(true) => in_phase(s, Phase::OldBackup),
            EventView::Present(false) => in_phase(s, Phase::TargetCreate),
            _ => s,
        },
        Phase::OldBackup => match e {
            EventView::Present(true) => in_phase(s, Phase::BackupClear),
            EventView::Present(false) => in_phase(s, Phase::BackupCreate),
            _ => s,
        },
        Phase::BackupClear => match e {
            EventView::Done => in_phase(s, Phase::BackupCreate),
            EventView::Failed(m) => settled(s, OutcomeKind::OldBackupKept, m),
            EventView::Present(_) => s,
        },
        Phase::BackupCreate => match e {
            EventView::Done => in_phase(s, Phase::BackupCopy),
            EventView::Failed(m) => settled(s, OutcomeKind::BackupDirFailed, m),
            EventView::Present(_) => s,
        },
        Phase::BackupCopy => match e {
            EventView::Done => in_phase(
                recorded(s, OutcomeKind::BackedUp, Seq::empty()),
                Phase::TargetClear,
            ),
            EventView::Failed(m) => settled(s, OutcomeKind::BackupFailed, m),
            EventView::Present(_) => s,
        },
        Phase::TargetClear => match e {
            EventView::Done => in_phase(s, Phase::TargetCreate),
            EventView::Failed(m) => settled(s, OutcomeKind::ClearFailed, m),
            EventView::Present(_) => s,
        },
        Phase::TargetCreate => match e {
            EventView::Done => in_phase(s, Phase::TargetCopy),
            EventView::Failed(m) => settled(s, OutcomeKind::TargetDirFailed, m),
            EventView::Present(_) => s,
        },
        Phase::TargetCopy => match e {
            EventView::Done => settled(s, OutcomeKind::Swapped, Seq::empty()),
            EventView::Failed(m) => settled(s, OutcomeKind::CopyFailed, m),
            EventView::Present(_) => s,
        },
        Phase::Finished => s,
    }
}

/// Where the source keeps the data of the game that `s` works on.
pub open spec fn source_slot(s: StateView) -> SlotView {
    SlotView { backup: s.source_is_backup, profile: s.source, game: s.games[s.game] }
}

/// Where the target that `s` works on keeps the data of the game.
pub open spec fn target_slot(s: StateView) -> SlotView {
    SlotView { backup: false, profile: s.targets[s.target], game: s.games[s.game] }
}

/// Where the backup of the target's data for the game goes.
pub open spec fn backup_slot(s: StateView) -> SlotView {
    SlotView { backup: true, profile: s.targets[s.target], game: s.games[s.game] }
}

/// The disk operation that `s` waits for.
pub open spec fn pending_action(s: StateView) -> ActionView {
    match s.phase {
        Phase::BackupRoot => ActionView::PrepareBackups,
        Phase::Source => ActionView::Probe(source_slot(s)),
        Phase::Target => ActionView::Probe(target_slot(s)),
        Phase::OldBackup => ActionView::Probe(backup_slot(s)),
        Phase::BackupClear => ActionView::Remove(backup_slot(s)),
        Phase::BackupCreate => ActionView::Create(backup_slot(s)),
        Phase::BackupCopy => ActionView::Copy { from: target_slot(s), to: backup_slot(s) },
        Phase::TargetClear => ActionView::Remove(target_slot(s)),
        Phase::TargetCreate => ActionView::Create(target_slot(s)),
        Phase::TargetCopy => ActionView::Copy { from: source_slot(s), to: target_slot(s) },
        Phase::Finished => ActionView::Finish,
    }
}

/// A step keeps a transaction well formed.
pub proof fn lemma_step_well_formed(s: StateView, e: EventView)
    requires
        well_formed(s),
    ensures
        well_formed(after_event(s, e)),
{
}

/// A failure to create the backup namespace is passed over: the
/// transaction goes on as if the namespace were there, and its log gains no
/// line.
pub proof fn lemma_namespace_failure_is_passed_over(s: StateView, reason: Seq<char>)
    requires
        s.phase == Phase::BackupRoot,
    ensures
        after_event(s, EventView::Failed(reason)) == after_event(s, EventView::Done),
        after_event(s, EventView::Failed(reason)).log == s.log,
{
}

/// No removal without backup. A transaction comes to remove a target's
/// data only from the copy of that data into the backup slot, when the copy
/// has succeeded; and it has then recorded the backup for that pair.
pub proof fn lemma_backup_before_removal(s: StateView, e: EventView)
    requires
        s.phase != Phase::TargetClear,
        after_event(s, e).phase == Phase::TargetClear,
    ensures
        s.phase == Phase::BackupCopy,
        e == EventView::Done,
        pending_action(s) == (ActionView::Copy { from: target_slot(s), to: backup_slot(s) }),
        after_event(s, e).log == s.log.push(
            OutcomeView {
                kind: OutcomeKind::BackedUp,
                target: s.targets[s.target],
                game: s.games[s.game],
                reason: Seq::empty(),
            },
        ),
        after_event(s, e).target == s.target,
        after_event(s, e).game == s.game,
{
}

/// Whatever ends a pair, the transaction moves on to the pair that follows:
/// no outcome of one pair keeps another from being worked on.
pub proof fn lemma_pairs_are_independent(s: StateView, kind: OutcomeKind, reason: Seq<char>)
    ensures
        settled(s, kind, reason).target == at_next_pair(s).target,
        settled(s, kind, reason).game == at_next_pair(s).game,
        settled(s, kind, reason).phase == at_next_pair(s).phase,
{
}

/// A swap transaction in progress.
pub struct SwapState {
    source_id: String,
    source_is_backup: bool,
    target_ids: Vec<String>,
    game_ids: Vec<String>,
    phase: Phase,
    target: usize,
    game: usize,
    log: Vec<Outcome>,
}

impl View for SwapState {
    type V = StateView;

    closed spec fn view(&self) -> StateView {
        StateView {
            source: self.source_id@,
            source_is_backup: self.source_is_backup,
            targets: texts(self.target_ids@),
            games: texts(self.game_ids@),
            phase: self.phase,
            target: self.target as int,
            game: self.game as int,
            log: outcomes(self.log@),
        }
    }
}

impl SwapState {
    #[verifier::type_invariant]
    spec fn inv(self) -> bool {
        well_formed(self@)
    }

    /// A transaction that copies the data of `game_ids` from the source
    /// profile to each of `target_ids`. Its first operation is due.
    pub fn start(
        source_id: String,
        source_is_backup: bool,
        target_ids: Vec<String>,
        game_ids: Vec<String>,
    ) -> (r: SwapState)
        ensures
            r@ == initial(source_id@, source_is_backup, texts(target_ids@), texts(game_ids@)),
    {
        let r = SwapState {
            source_id,
            source_is_backup,
            target_ids,
            game_ids,
            phase: Phase::BackupRoot,
            target: 0,
            game: 0,
            log: Vec::new(),
        };
        assert(outcomes(r.log@) =~= Seq::empty());
        r
    }

    /// Whether the transaction is over.
    pub fn finished(&self) -> (r: bool)
        ensures
            r == (self@.phase == Phase::Finished),
    {
        match self.phase {
            Phase::Finished => true,
            _ => false,
        }
    }

    fn source_place(&self) -> (r: Slot)
        requires
            in_pair(self@.phase),
        ensures
            r@ == source_slot(self@),
    {
        proof {
            use_type_invariant(self);
        }
        Slot {
            backup: self.source_is_backup,
            profile: self.source_id.clone(),
            game: self.game_ids[self.game].clone(),
        }
    }

    fn target_place(&self, backup: bool) -> (r: Slot)
        requires
            in_pair(self@.phase),
        ensures
            r@ == (if backup {
                backup_slot(self@)
            } else {
                target_slot(self@)
            }),
    {
        proof {
            use_type_invariant(self);
        }
        Slot {
            backup,
            profile: self.target_ids[self.target].clone(),
            game: self.game_ids[self.game].clone(),
        }
    }

    /// The disk operation that is due.
    pub fn action(&self) -> (r: SwapAction)
        ensures
            r@ == pending_action(self@),
    {
        match self.phase {
            Phase::BackupRoot => SwapAction::PrepareBackups,
            Phase::Source => SwapAction::Probe(self.source_place()),
            Phase::Target => SwapAction::Probe(self.target_place(false)),
            Phase::OldBackup => SwapAction::Probe(self.target_place(true)),
            Phase::BackupClear => SwapAction::Remove(self.target_place(true)),
            Phase::BackupCreate => SwapAction::Create(self.target_place(true)),
            Phase::BackupCopy => SwapAction::Copy {
                from: self.target_place(false),
                to: self.target_place(true),
            },
            Phase::TargetClear => SwapAction::Remove(self.target_place(false)),
            Phase::TargetCreate => SwapAction::Create(self.target_place(false)),
            Phase::TargetCopy => SwapAction::Copy {
                from: self.source_place(),
                to: self.target_place(false),
            },
            Phase::Finished => SwapAction::Finish,
        }
    }

    fn enter(self, phase: Phase) -> (r: SwapState)
        requires
            in_pair(self@.phase),
            in_pair(phase),
        ensures
            r@ == in_phase(self@, phase),
    {
        proof {
            use_type_invariant(&self);
        }
        SwapState {
            source_id: self.source_id,
            source_is_backup: self.source_is_backup,
            target_ids: self.target_ids,
            game_ids: self.game_ids,
            phase,
            target: self.target,
            game: self.game,
            log: self.log,
        }
    }

    fn first_pair(self) -> (r: SwapState)
        requires
            self@.phase == Phase::BackupRoot,
        ensures
            r@ == at_first_pair(self@),
    {
        let none = self.target_ids.len() == 0 || self.game_ids.len() == 0;
        SwapState {
            source_id: self.source_id,
            source_is_backup: self.source_is_backup,
            target_ids: self.target_ids,
            game_ids: self.game_ids,
            phase: if none {
                Phase::Finished
            } else {
                Phase::Source
            },
            target: if none {
                self.target
            } else {
                0
            },
            game: if none {
                self.game
            } else {
                0
            },
            log: self.log,
        }
    }

    fn record(self, kind: OutcomeKind, reason: String) -> (r: SwapState)
        requires
            in_pair(self@.phase),
        ensures
            r@ == recorded(self@, kind, reason@),
    {
        proof {
            use_type_invariant(&self);
        }
        let ghost before = self@;
        let outcome = Outcome {
            kind,
            target: self.target_ids[self.target].clone(),
            game: self.game_ids[self.game].clone(),
            reason,
        };
        let mut log = self.log;
        log.push(outcome);
        let r = SwapState {
            source_id: self.source_id,
            source_is_backup: self.source_is_backup,
            target_ids: self.target_ids,
            game_ids: self.game_ids,
            phase: self.phase,
            target: self.target,
            game: self.game,
            log,
        };
        assert(r@.log =~= recorded(before, kind, reason@).log);
        r
    }

    fn next_pair(self) -> (r: SwapState)
        requires
            in_pair(self@.phase),
        ensures
            r@ == at_next_pair(self@),
    {
        proof {
            use_type_invariant(&self);
            assert(self@.targets.len() == self.target_ids.len());
            assert(self@.games.len() == self.game_ids.len());
        }
        let more_games = self.game + 1 < self.game_ids.len();
        let more_targets = self.target + 1 < self.target_ids.len();
        SwapState {
            source_id: self.source_id,
            source_is_backup: self.source_is_backup,
            target_ids: self.target_ids,
            game_ids: self.game_ids,
            phase: if more_games || more_targets {
                Phase::Source
            } else {
                Phase::Finished
            },
            target: if !more_games && more_targets {
                self.target + 1
            } else {
                self.target
            },
            game: if more_games {
                self.game + 1
            } else if more_targets {
                0
            } else {
                self.game
            },
            log: self.log,
        }
    }

    fn settle(self, kind: OutcomeKind, reason: String) -> (r: SwapState)
        requires
            in_pair(self@.phase),
        ensures
            r@ == settled(self@, kind, reason@),
    {
        self.record(kind, reason).next_pair()
    }

    /// Takes in how the operation that was due went, and moves on.
    pub fn advance(self, event: SwapEvent) -> (r: SwapState)
        ensures
            r@ == after_event(self@, event@),
    {
        match self.phase {
            Phase::BackupRoot => match event {
                SwapEvent::Done => self.first_pair(),
                SwapEvent::Failed(_) => self.first_pair(),
                SwapEvent::Present(_) => self,
            },
            Phase::Source => match event {
                SwapEvent::Present(true) => self.enter(Phase::Target),
                SwapEvent::Present(false) => self.settle(OutcomeKind::NoSource, String::new()),
                _ => self,
            },
            Phase::Target => match event {
                SwapEvent::Present(true) => self.enter(Phase::OldBackup),
                SwapEvent::Present(false) => self.enter(Phase::TargetCreate),
                _ => self,
            },
            Phase::OldBackup => match event {
                SwapEvent::Present(true) => self.enter(Phase::BackupClear),
                SwapEvent::Present(false) => self.enter(Phase::BackupCreate),
                _ => self,
            },
            Phase::BackupClear => match event {
                SwapEvent::Done => self.enter(Phase::BackupCreate),
                SwapEvent::Failed(m) => self.settle(OutcomeKind::OldBackupKept, m),
                SwapEvent::Present(_) => self,
            },
            Phase::BackupCreate => match event {
                SwapEvent::Done => self.enter(Phase::BackupCopy),
                SwapEvent::Failed(m) => self.settle(OutcomeKind::BackupDirFailed, m),
                SwapEvent::Present(_) => self,
            },
            Phase::BackupCopy => match event {
                SwapEvent::Done => self.record(OutcomeKind::BackedUp, String::new()).enter(
                    Phase::TargetClear,
                ),
                SwapEvent::Failed(m) => self.settle(OutcomeKind::BackupFailed, m),
                SwapEvent::Present(_) => self,
            },
            Phase::TargetClear => match event {
                SwapEvent::Done => self.enter(Phase::TargetCreate),
                SwapEvent::Failed(m) => self.settle(OutcomeKind::ClearFailed, m),
                SwapEvent::Present(_) => self,
            },
            Phase::TargetCreate => match event {
                SwapEvent::Done => self.enter(Phase::TargetCopy),
                SwapEvent::Failed(m) => self.settle(OutcomeKind::TargetDirFailed, m),
                SwapEvent::Present(_) => self,
            },
            Phase::TargetCopy => match event {
                SwapEvent::Done => self.settle(OutcomeKind::Swapped, String::new()),
                SwapEvent::Failed(m) => self.settle(OutcomeKind::CopyFailed, m),
                SwapEvent::Present(_) => self,
            },
            Phase::Finished => self,
        }
    }
}


/// What a swap transaction reports: whether no error occurred, a summary in
/// words, and the outcome log, one line for each outcome.
#[derive(Debug)]
pub struct SwapResult {
    pub success: bool,
    pub message: String,
    pub details: Vec<String>,
}

/// `target`, a slash, `game`, a colon and `reason`: the tail of a line about a
/// failure.
pub open spec fn failure_tail(o: OutcomeView) -> Seq<char> {
    o.target + "/"@ + o.game + ": "@ + o.reason
}

/// The line of the outcome log that stands for `o`. Lines of warnings begin
/// with `Warning:`, lines of errors with `Error:`.
pub open spec fn line_of(o: OutcomeView) -> Seq<char> {
    match o.kind {
        OutcomeKind::NoSource => "Warning: Source has no data for game "@ + o.game
            + " — skipped for target "@ + o.target,
        OutcomeKind::OldBackupKept => "Warning: Failed to remove old backup for "@ + failure_tail(
            o,
        ),
        OutcomeKind::BackupDirFailed => "Warning: Failed to create backup dir for "@
            + failure_tail(o),
        OutcomeKind::BackedUp => "Backed up game "@ + o.game + " for profile "@ + o.target
            + " to dunabackups"@,
        OutcomeKind::BackupFailed => "Warning: Backup failed for "@ + failure_tail(o),
        OutcomeKind::ClearFailed => "Error: Failed to clear target "@ + failure_tail(o),
        OutcomeKind::TargetDirFailed => "Error: Failed to create target dir for "@ + failure_tail(
            o,
        ),
        OutcomeKind::Swapped => "Successfully swapped game "@ + o.game + " for profile "@
            + o.target,
        OutcomeKind::CopyFailed => "Error: Failed to copy game "@ + o.game + " to "@ + o.target
            + ": "@ + o.reason,
    }
}

/// The lines of a log.
pub open spec fn lines_of(log: Seq<OutcomeView>) -> Seq<Seq<char>> {
    Seq::new(log.len(), |i: int| line_of(log[i]))
}

/// Whether no outcome of `log` is an error.
pub open spec fn free_of_errors(log: Seq<OutcomeView>) -> bool {
    forall|i: int| 0 <= i < log.len() ==> severity_of(#[trigger] log[i].kind) != Severity::Error
}

/// Whether the transaction counts as a success: no outcome is an error.
/// Warnings do not count.
pub open spec fn succeeded(s: StateView) -> bool {
    free_of_errors(s.log)
}

/// The summary in words.
pub open spec fn summary_of(s: StateView) -> Seq<char> {
    if free_of_errors(s.log) {
        "All games swapped successfully!"@
    } else {
        "Some operations failed. Check details."@
    }
}

/// The lines of the outcome log.
pub open spec fn details_of(s: StateView) -> Seq<Seq<char>> {
    lines_of(s.log)
}

/// Whether a line of the outcome log carries the error tag.
pub open spec fn is_error_line(line: Seq<char>) -> bool {
    line.len() >= 6 && line.subrange(0, 6) == "Error:"@
}

/// Whether none of `lines` carries the error tag.
pub open spec fn no_error_line(lines: Seq<Seq<char>>) -> bool {
    forall|i: int| 0 <= i < lines.len() ==> !is_error_line(#[trigger] lines[i])
}

/// A line of the outcome log carries the error tag exactly where its outcome
/// is an error.
pub proof fn lemma_error_tag(o: OutcomeView)
    ensures
        is_error_line(line_of(o)) <==> severity_of(o.kind) == Severity::Error,
{
    reveal_strlit("Error:");
    reveal_strlit("Warning: Source has no data for game ");
    reveal_strlit("Warning: Failed to remove old backup for ");
    reveal_strlit("Warning: Failed to create backup dir for ");
    reveal_strlit("Backed up game ");
    reveal_strlit("Warning: Backup failed for ");
    reveal_strlit("Error: Failed to clear target ");
    reveal_strlit("Error: Failed to create target dir for ");
    reveal_strlit("Successfully swapped game ");
    reveal_strlit("Error: Failed to copy game ");
    let line = line_of(o);
    let tag = "Error:"@;
    match o.kind {
        OutcomeKind::ClearFailed => {
            assert(line.subrange(0, 6) =~= tag);
        },
        OutcomeKind::TargetDirFailed => {
            assert(line.subrange(0, 6) =~= tag);
        },
        OutcomeKind::CopyFailed => {
            assert(line.subrange(0, 6) =~= tag);
        },
        _ => {
            if line.len() >= 6 {
                assert(line.subrange(0, 6)[0] == line[0]);
                assert(line[0] != tag[0]);
            }
        },
    }
}

/// A transaction is a success exactly where no line of its log carries the
/// error tag.
pub proof fn lemma_success_is_no_error_line(s: StateView)
    ensures
        succeeded(s) <==> no_error_line(details_of(s)),
{
    assert forall|i: int| 0 <= i < s.log.len() implies (is_error_line(
        #[trigger] lines_of(s.log)[i],
    ) <==> severity_of(s.log[i].kind) == Severity::Error) by {
        lemma_error_tag(s.log[i]);
    }
    if free_of_errors(s.log) {
        assert forall|i: int| 0 <= i < lines_of(s.log).len() implies !is_error_line(
            #[trigger] lines_of(s.log)[i],
        ) by {
            assert(severity_of(s.log[i].kind) != Severity::Error);
        }
    } else {
        let i = choose|i: int|
            0 <= i < s.log.len() && severity_of(#[trigger] s.log[i].kind) == Severity::Error;
        assert(is_error_line(lines_of(s.log)[i]));
    }
}

impl Outcome {
    fn tail(&self) -> (r: String)
        ensures
            r@ == failure_tail(self@),
    {
        let mut r = self.target.clone();
        r.append("/");
        r.append(self.game.as_str());
        r.append(": ");
        r.append(self.reason.as_str());
        r
    }

    /// The line of the outcome log that stands for this outcome.
    pub fn line(&self) -> (r: String)
        ensures
            r@ == line_of(self@),
    {
        match self.kind {
            OutcomeKind::NoSource => {
                let mut r = join_text("Warning: Source has no data for game ", self.game.as_str());
                r.append(" — skipped for target ");
                r.append(self.target.as_str());
                r
            },
            OutcomeKind::OldBackupKept => join_text(
                "Warning: Failed to remove old backup for ",
                self.tail().as_str(),
            ),
            OutcomeKind::BackupDirFailed => join_text(
                "Warning: Failed to create backup dir for ",
                self.tail().as_str(),
            ),
            OutcomeKind::BackedUp => {
                let mut r = join_text("Backed up game ", self.game.as_str());
                r.append(" for profile ");
                r.append(self.target.as_str());
                r.append(" to dunabackups");
                r
            },
            OutcomeKind::BackupFailed => join_text(
                "Warning: Backup failed for ",
                self.tail().as_str(),
            ),
            OutcomeKind::ClearFailed => join_text(
                "Error: Failed to clear target ",
                self.tail().as_str(),
            ),
            OutcomeKind::TargetDirFailed => join_text(
                "Error: Failed to create target dir for ",
                self.tail().as_str(),
            ),
            OutcomeKind::Swapped => {
                let mut r = join_text("Successfully swapped game ", self.game.as_str());
                r.append(" for profile ");
                r.append(self.target.as_str());
                r
            },
            OutcomeKind::CopyFailed => {
                let mut r = join_text("Error: Failed to copy game ", self.game.as_str());
                r.append(" to ");
                r.append(self.target.as_str());
                r.append(": ");
                r.append(self.reason.as_str());
                r
            },
        }
    }
}

impl SwapState {
    fn clean(&self) -> (r: bool)
        ensures
            r == free_of_errors(self@.log),
    {
        let mut i: usize = 0;
        while i < self.log.len()
            invariant
                i <= self.log.len(),
                forall|j: int|
                    0 <= j < i ==> severity_of(#[trigger] self.log@[j].kind) != Severity::Error,
            decreases self.log.len() - i,
        {
            match self.log[i].kind.severity() {
                Severity::Error => {
                    assert(self@.log[i as int].kind == self.log@[i as int].kind);
                    return false;
                },
                _ => {},
            }
            i += 1;
        }
        assert forall|j: int| 0 <= j < self@.log.len() implies severity_of(
            #[trigger] self@.log[j].kind,
        ) != Severity::Error by {
            assert(self@.log[j].kind == self.log@[j].kind);
        }
        true
    }

    /// The outcome of the transaction as far as it has come: the whole
    /// outcome once it is finished. It is a success exactly where no line of
    /// the log carries the error tag.
    pub fn result(&self) -> (r: SwapResult)
        ensures
            r.success == succeeded(self@),
            r.message@ == summary_of(self@),
            texts(r.details@) == details_of(self@),
            r.success == no_error_line(texts(r.details@)),
    {
        let clean = self.clean();
        let mut details: Vec<String> = Vec::new();
        let mut i: usize = 0;
        while i < self.log.len()
            invariant
                i <= self.log.len(),
                details.len() == i,
                forall|j: int| 0 <= j < i ==> (#[trigger] details@[j])@ == line_of(self.log@[j]@),
            decreases self.log.len() - i,
        {
            details.push(self.log[i].line());
            i += 1;
        }
        assert(texts(details@) =~= details_of(self@));
        proof {
            lemma_success_is_no_error_line(self@);
        }
        SwapResult {
            success: clean,
            message: if clean {
                copy_text("All games swapped successfully!")
            } else {
                copy_text("Some operations failed. Check details.")
            },
            details,
        }
    }
}

} // verus!
