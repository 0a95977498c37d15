//! The summary of a swap before it is made: who gives, who receives, and
//! how much data the source holds for the chosen games.

use vstd::prelude::*;
use crate::discovery::Profile;
use crate::discovery::ProfileView;
use crate::text::contains_text;
use crate::text::copy_text;
use crate::text::same_text;
use crate::text::texts;
use crate::text::views;
use crate::time::format_system_time;
use crate::time::is_rendering;
use crate::time::later_of;
use crate::time::latest_known;
use crate::time::Timestamp;

verus! {

/// What an entry of a directory tree is.
#[derive(Clone, Copy, PartialEq, Eq, Structural, Debug)]
pub enum EntryKind {
    File,
    Dir,
    Other,
}

/// What the disk says of a file: its size in bytes, and its modification
/// time where that can be read.
#[derive(Clone, Copy, PartialEq, Eq, Structural, Debug)]
pub struct FileMeta {
    pub size: u64,
    pub modified: Option<Timestamp>,
}

/// One entry met on the walk through a directory tree: what it is, how deep
/// it lies below the root of the walk (0 for the root itself), and what the
/// disk says of it, where that can be read.
#[derive(Clone, Copy, PartialEq, Eq, Structural, Debug)]
pub struct WalkEntry {
    pub kind: EntryKind,
    pub depth: usize,
    pub meta: Option<FileMeta>,
}

/// Sums over a directory tree, or over several: the bytes of the files, the
/// number of files, the number of directories below the root, and the time
/// of the latest change to a file.
pub struct Totals {
    pub size: int,
    pub files: int,
    pub folders: int,
    pub latest: Option<Timestamp>,
}

/// No entry at all.
pub open spec fn no_totals() -> Totals {
    Totals { size: 0, files: 0, folders: 0, latest: None }
}

/// `sum` with one more entry. A file counts as a file and, where the disk
/// tells of it, with its size and modification time; a directory counts
/// unless it is the root of the walk.
pub open spec fn with_walk_entry(sum: Totals, entry: WalkEntry) -> Totals {
    match entry.kind {
        EntryKind::File => match entry.meta {
            Some(meta) => Totals {
                size: sum.size + meta.size,
                files: sum.files + 1,
                folders: sum.folders,
                latest: latest_known(sum.latest, meta.modified),
            },
            None => Totals { files: sum.files + 1, ..sum },
        },
        EntryKind::Dir => if entry.depth > 0 {
            Totals { folders: sum.folders + 1, ..sum }
        } else {
            sum
        },
        EntryKind::Other => sum,
    }
}

/// The sums over the first `n` entries of a walk.
pub open spec fn walk_totals(walk: Seq<WalkEntry>, n: int) -> Totals
    decreases n,
{
    if n <= 0 {
        no_totals()
    } else {
        with_walk_entry(walk_totals(walk, n - 1), walk[n - 1])
    }
}

/// The sums over a whole walk.
pub open spec fn tree_totals(walk: Seq<WalkEntry>) -> Totals {
    walk_totals(walk, walk.len() as int)
}

/// The sums grow with the walk, and there are no more files or folders
/// than entries.
pub proof fn lemma_walk_totals_grow(walk: Seq<WalkEntry>, m: int, n: int)
    requires
        0 <= m <= n,
    ensures
        0 <= walk_totals(walk, m).size <= walk_totals(walk, n).size,
        0 <= walk_totals(walk, n).files <= n,
        0 <= walk_totals(walk, n).folders <= n,
    decreases n,
{
    if n > 0 {
        if m < n {
            lemma_walk_totals_grow(walk, m, n - 1);
        } else {
            lemma_walk_totals_grow(walk, n - 1, n - 1);
        }
    }
}

/// The sums over a directory tree as the machine holds them.
#[derive(Clone, Copy, PartialEq, Eq, Structural, Debug)]
pub struct DirStats {
    pub total_size: u64,
    pub file_count: usize,
    pub folder_count: usize,
    pub latest_modified: Option<Timestamp>,
}

impl View for DirStats {
    type V = Totals;

    open spec fn view(&self) -> Totals {
        Totals {
            size: self.total_size as int,
            files: self.file_count as int,
            folders: self.folder_count as int,
            latest: self.latest_modified,
        }
    }
}

/// Sums up a directory tree, given the entries met on a walk through it.
/// The sizes must add up to a number of 64 bits.
pub fn get_dir_stats(walk: &Vec<WalkEntry>) -> (r: DirStats)
    requires
        tree_totals(walk@).size <= u64::MAX,
    ensures
        r@ == tree_totals(walk@),
{
    let mut total_size: u64 = 0;
    let mut file_count: usize = 0;
    let mut folder_count: usize = 0;
    let mut latest_modified: Option<Timestamp> = None;
    let mut i: usize = 0;
    while i < walk.len()
        invariant
            i <= walk.len(),
            tree_totals(walk@).size <= u64::MAX,
            file_count <= i,
            folder_count <= i,
            (DirStats { total_size, file_count, folder_count, latest_modified })@ == walk_totals(
                walk@,
                i as int,
            ),
        decreases walk.len() - i,
    {
        proof {
            lemma_walk_totals_grow(walk@, i + 1, walk@.len() as int);
        }
        let entry = walk[i];
        match entry.kind {
            EntryKind::File => {
                file_count += 1;
                match entry.meta {
                    Some(meta) => {
                        total_size += meta.size;
                        latest_modified = later_of(latest_modified, meta.modified);
                    },
                    None => {},
                }
            },
            EntryKind::Dir => {
                if entry.depth > 0 {
                    folder_count += 1;
                }
            },
            EntryKind::Other => {},
        }
        i += 1;
    }
    DirStats { total_size, file_count, folder_count, latest_modified }
}

/// A game chosen for a swap, with the walk through the source's directory
/// for it; no walk where the source has no such directory.
#[derive(Debug)]
pub struct SelectedGame {
    pub id: String,
    pub walk: Option<Vec<WalkEntry>>,
}

/// The sums over the source's directory for one game: nothing where there
/// is no directory.
pub open spec fn game_totals(game: SelectedGame) -> Totals {
    match game.walk {
        Some(walk) => tree_totals(walk@),
        None => no_totals(),
    }
}

/// Two sums added up.
pub open spec fn added(a: Totals, b: Totals) -> Totals {
    Totals {
        size: a.size + b.size,
        files: a.files + b.files,
        folders: a.folders + b.folders,
        latest: latest_known(a.latest, b.latest),
    }
}

/// The sums over the source's directories for the first `n` games.
pub open spec fn games_totals(games: Seq<SelectedGame>, n: int) -> Totals
    decreases n,
{
    if n <= 0 {
        no_totals()
    } else {
        added(games_totals(games, n - 1), game_totals(games[n - 1]))
    }
}

/// The sums over the source's directories for all the games.
pub open spec fn source_totals(games: Seq<SelectedGame>) -> Totals {
    games_totals(games, games.len() as int)
}

/// Whether sums fit the numbers of the machine.
pub open spec fn fits(sum: Totals) -> bool {
    sum.size <= u64::MAX && sum.files <= usize::MAX && sum.folders <= usize::MAX
}

/// The sums grow with the number of games.
pub proof fn lemma_games_totals_grow(games: Seq<SelectedGame>, m: int, n: int)
    requires
        0 <= m <= n,
    ensures
        0 <= games_totals(games, m).size <= games_totals(games, n).size,
        0 <= games_totals(games, m).files <= games_totals(games, n).files,
        0 <= games_totals(games, m).folders <= games_totals(games, n).folders,
    decreases n,
{
    if n > 0 {
        if m < n {
            lemma_games_totals_grow(games, m, n - 1);
        } else {
            lemma_games_totals_grow(games, n - 1, n - 1);
        }
        match games[n - 1].walk {
            Some(walk) => {
                lemma_walk_totals_grow(walk@, 0, walk@.len() as int);
            },
            None => {},
        }
    }
}

/// Sums up the source's directories for the chosen games. The sums must fit
/// the numbers of the machine.
pub fn sum_source(games: &Vec<SelectedGame>) -> (r: DirStats)
    requires
        fits(source_totals(games@)),
    ensures
        r@ == source_totals(games@),
{
    let mut sum = DirStats { total_size: 0, file_count: 0, folder_count: 0, latest_modified: None };
    let mut i: usize = 0;
    while i < games.len()
        invariant
            i <= games.len(),
            fits(source_totals(games@)),
            sum@ == games_totals(games@, i as int),
        decreases games.len() - i,
    {
        proof {
            lemma_games_totals_grow(games@, i + 1, games@.len() as int);
        }
        match &games[i].walk {
            Some(walk) => {
                let stats = get_dir_stats(walk);
                sum = DirStats {
                    total_size: sum.total_size + stats.total_size,
                    file_count: sum.file_count + stats.file_count,
                    folder_count: sum.folder_count + stats.folder_count,
                    latest_modified: later_of(sum.latest_modified, stats.latest_modified),
                };
            },
            None => {
                assert(latest_known(sum.latest_modified, None) == sum.latest_modified);
            },
        }
        i += 1;
    }
    sum
}

/// The bytes of the files of a directory tree, where they add up to a
/// number of 64 bits.
pub fn walk_size(walk: &Vec<WalkEntry>) -> (r: Option<u64>)
    ensures
        match r {
            Some(size) => size == tree_totals(walk@).size,
            None => tree_totals(walk@).size > u64::MAX,
        },
{
    let mut size: u64 = 0;
    let mut i: usize = 0;
    while i < walk.len()
        invariant
            i <= walk.len(),
            size == walk_totals(walk@, i as int).size,
        decreases walk.len() - i,
    {
        proof {
            lemma_walk_totals_grow(walk@, i + 1, walk@.len() as int);
        }
        let entry = walk[i];
        match entry.kind {
            EntryKind::File => match entry.meta {
                Some(meta) => match size.checked_add(meta.size) {
                    Some(sum) => {
                        size = sum;
                    },
                    None => {
                        return None;
                    },
                },
                None => {},
            },
            _ => {},
        }
        i += 1;
    }
    Some(size)
}

/// Tells whether the sums over the source's directories for the chosen
/// games fit the numbers of the machine.
pub fn totals_fit(games: &Vec<SelectedGame>) -> (r: bool)
    ensures
        r == fits(source_totals(games@)),
{
    let mut size: u64 = 0;
    let mut files: usize = 0;
    let mut folders: usize = 0;
    let mut i: usize = 0;
    while i < games.len()
        invariant
            i <= games.len(),
            size == games_totals(games@, i as int).size,
            files == games_totals(games@, i as int).files,
            folders == games_totals(games@, i as int).folders,
        decreases games.len() - i,
    {
        proof {
            lemma_games_totals_grow(games@, i + 1, games@.len() as int);
            lemma_games_totals_grow(games@, i as int, i + 1);
        }
        match &games[i].walk {
            Some(walk) => {
                proof {
                    lemma_walk_totals_grow(walk@, 0, walk@.len() as int);
                }
                if walk_size(walk).is_none() {
                    return false;
                }
                let stats = get_dir_stats(walk);
                match (
                    size.checked_add(stats.total_size),
                    files.checked_add(stats.file_count),
                    folders.checked_add(stats.folder_count),
                ) {
                    (Some(a), Some(b), Some(c)) => {
                        size = a;
                        files = b;
                        folders = c;
                    },
                    _ => {
                        return false;
                    },
                }
            },
            None => {},
        }
        i += 1;
    }
    true
}

/// Why no summary can be given.
#[derive(Clone, Copy, PartialEq, Eq, Structural, Debug)]
pub enum SummaryError {
    /// No game was chosen.
    NoGamesSelected,
    /// The source is not among the profiles.
    SourceNotFound,
    /// None of the targets is a profile that is no backup.
    NoValidTargets,
}

impl SummaryError {
    /// The error in words.
    pub fn message(&self) -> (r: String)
        ensures
            r@ == match *self {
                SummaryError::NoGamesSelected => "No games selected"@,
                SummaryError::SourceNotFound => "Source profile not found"@,
                SummaryError::NoValidTargets => "No valid target profiles found"@,
            },
    {
        match self {
            SummaryError::NoGamesSelected => copy_text("No games selected"),
            SummaryError::SourceNotFound => copy_text("Source profile not found"),
            SummaryError::NoValidTargets => copy_text("No valid target profiles found"),
        }
    }
}

/// The summary of a swap.
#[derive(Debug)]
pub struct SwapSummary {
    pub source: Profile,
    pub targets: Vec<Profile>,
    pub source_last_modified: String,
    pub source_total_size: u64,
    pub source_file_count: usize,
    pub source_folder_count: usize,
}

/// Whether `p` is the profile asked for as source.
pub open spec fn is_source(p: ProfileView, id: Seq<char>, backup: bool) -> bool {
    p.id == id && p.is_backup == backup
}

/// The position of the first profile at or behind `from` that is the
/// source.
pub open spec fn source_from(profiles: Seq<ProfileView>, id: Seq<char>, backup: bool, from: int)
    -> Option<int>
    decreases profiles.len() - from,
{
    if from < 0 || from >= profiles.len() {
        None
    } else if is_source(profiles[from], id, backup) {
        Some(from)
    } else {
        source_from(profiles, id, backup, from + 1)
    }
}

/// Whether `p` may receive: it is no backup and one of the targets asked
/// for.
pub open spec fn is_target(p: ProfileView, target_ids: Seq<Seq<char>>) -> bool {
    target_ids.contains(p.id) && !p.is_backup
}

/// The profiles among the first `n` that may receive, in their order.
pub open spec fn targets_among(profiles: Seq<ProfileView>, target_ids: Seq<Seq<char>>, n: int)
    -> Seq<ProfileView>
    decreases n,
{
    if n <= 0 {
        Seq::empty()
    } else if is_target(profiles[n - 1], target_ids) {
        targets_among(profiles, target_ids, n - 1).push(profiles[n - 1])
    } else {
        targets_among(profiles, target_ids, n - 1)
    }
}

/// Why a request for a summary is turned down, if it is: for want of a
/// game, then for want of the source, then for want of a target.
pub open spec fn rejection(
    profiles: Seq<ProfileView>,
    source_id: Seq<char>,
    source_is_backup: bool,
    target_ids: Seq<Seq<char>>,
    games: int,
) -> Option<SummaryError> {
    if games == 0 {
        Some(SummaryError::NoGamesSelected)
    } else if source_from(profiles, source_id, source_is_backup, 0) is None {
        Some(SummaryError::SourceNotFound)
    } else if targets_among(profiles, target_ids, profiles.len() as int).len() == 0 {
        Some(SummaryError::NoValidTargets)
    } else {
        None
    }
}

/// Tells whether any game was chosen, before the disk is looked at.
pub fn check_selection(game_ids: &Vec<String>) -> (r: Result<(), SummaryError>)
    ensures
        game_ids@.len() == 0 <==> r == Err::<(), SummaryError>(SummaryError::NoGamesSelected),
        game_ids@.len() > 0 <==> r is Ok,
{
    if game_ids.len() == 0 {
        Err(SummaryError::NoGamesSelected)
    } else {
        Ok(())
    }
}

/// Finds the source among the profiles.
pub fn find_source(profiles: &Vec<Profile>, source_id: &str, source_is_backup: bool) -> (r: Option<
    usize,
>)
    ensures
        match r {
            Some(k) => k < profiles.len() && source_from(
                views(profiles@),
                source_id@,
                source_is_backup,
                0,
            ) == Some(k as int),
            None => source_from(views(profiles@), source_id@, source_is_backup, 0) is None,
        },
{
    let mut i: usize = 0;
    while i < profiles.len()
        invariant
            i <= profiles.len(),
            source_from(views(profiles@), source_id@, source_is_backup, 0) == source_from(
                views(profiles@),
                source_id@,
                source_is_backup,
                i as int,
            ),
        decreases profiles.len() - i,
    {
        assert(views(profiles@)[i as int] == profiles@[i as int]@);
        if same_text(profiles[i].id.as_str(), source_id) && profiles[i].is_backup
            == source_is_backup {
            return Some(i);
        }
        i += 1;
    }
    None
}

/// Picks the profiles that may receive.
pub fn find_targets(profiles: &Vec<Profile>, target_ids: &Vec<String>) -> (r: Vec<Profile>)
    ensures
        views(r@) == targets_among(views(profiles@), texts(target_ids@), profiles@.len() as int),
{
    let mut targets: Vec<Profile> = Vec::new();
    assert(views(targets@) =~= Seq::<ProfileView>::empty());
    let mut i: usize = 0;
    while i < profiles.len()
        invariant
            i <= profiles.len(),
            views(targets@) == targets_among(views(profiles@), texts(target_ids@), i as int),
        decreases profiles.len() - i,
    {
        assert(views(profiles@)[i as int] == profiles@[i as int]@);
        if contains_text(target_ids, profiles[i].id.as_str()) && !profiles[i].is_backup {
            let ghost before = views(targets@);
            let p = profiles[i].duplicate();
            targets.push(p);
            assert(views(targets@) =~= before.push(p@));
        }
        i += 1;
    }
    targets
}

/// Puts a summary together from its parts.
pub fn summary_of_parts(source: Profile, targets: Vec<Profile>, stats: DirStats, modified: String)
    -> (r: SwapSummary)
    ensures
        r.source == source,
        r.targets == targets,
        r.source_last_modified == modified,
        r.source_total_size == stats.total_size,
        r.source_file_count == stats.file_count,
        r.source_folder_count == stats.folder_count,
{
    SwapSummary {
        source,
        targets,
        source_last_modified: modified,
        source_total_size: stats.total_size,
        source_file_count: stats.file_count,
        source_folder_count: stats.folder_count,
    }
}

/// Summarises a swap. `profiles` are the profiles as discovered, `games` the
/// chosen games with the walks through the source's directories for them.
///
/// The request is turned down where no game was chosen, where the source is
/// not among the profiles, and where none of the targets is a profile that
/// is no backup. Otherwise the summary names the source, the targets that
/// may receive, in the order of the profiles, and the sums over the
/// source's directories for the games. The time of the latest change is
/// rendered as date and time of the machine's own time zone; it reads
/// `Unknown` where the source holds no file whose time is known, or the
/// calendar does not reach that time.
pub fn get_swap_summary(
    profiles: &Vec<Profile>,
    source_id: &str,
    source_is_backup: bool,
    target_ids: &Vec<String>,
    games: &Vec<SelectedGame>,
) -> (r: Result<SwapSummary, SummaryError>)
    requires
        fits(source_totals(games@)),
    ensures
        games@.len() == 0 ==> (r matches Err(e) && e == SummaryError::NoGamesSelected),
        match r {
            Ok(summary) => {
                &&& rejection(
                    views(profiles@),
                    source_id@,
                    source_is_backup,
                    texts(target_ids@),
                    games@.len() as int,
                ) is None
                &&& source_from(views(profiles@), source_id@, source_is_backup, 0) matches Some(k)
                    && summary.source@ == views(profiles@)[k]
                &&& views(summary.targets@) == targets_among(
                    views(profiles@),
                    texts(target_ids@),
                    profiles@.len() as int,
                )
                &&& summary.source_total_size == source_totals(games@).size
                &&& summary.source_file_count == source_totals(games@).files
                &&& summary.source_folder_count == source_totals(games@).folders
                &&& is_rendering(source_totals(games@).latest, summary.source_last_modified@)
            },
            Err(e) => rejection(
                views(profiles@),
                source_id@,
                source_is_backup,
                texts(target_ids@),
                games@.len() as int,
            ) == Some(e),
        },
{
    if games.len() == 0 {
        return Err(SummaryError::NoGamesSelected);
    }
    let source = match find_source(profiles, source_id, source_is_backup) {
        Some(k) => {
            assert(views(profiles@)[k as int] == profiles@[k as int]@);
            profiles[k].duplicate()
        },
        None => {
            return Err(SummaryError::SourceNotFound);
        },
    };
    let targets = find_targets(profiles, target_ids);
    if targets.len() == 0 {
        return Err(SummaryError::NoValidTargets);
    }
    let stats = sum_source(games);
    let modified = format_system_time(stats.latest_modified);
    Ok(summary_of_parts(source, targets, stats, modified))
}

} // verus!
