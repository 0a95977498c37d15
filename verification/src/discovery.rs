//! Finding the profiles under a data root.
//!
//! The caller reads the disk into a [`DataRoot`]; [`discover_profiles`]
//! decides which of the directories are profiles, what is shown of each, and
//! in which order.

use vstd::prelude::*;
use crate::catalog::EntryView;
use crate::catalog::LibraryIndex;
use crate::fields::get_persona_name;
use crate::fields::opt_text;
use crate::fields::persona_of;
use crate::games::all_owned;
use crate::games::count_profile_games;
use crate::games::GameDir;
use crate::order::insert_place;
use crate::order::lemma_sorted_len;
use crate::order::lemma_sorted_ordered;
use crate::order::lemma_sorted_rearranges;
use crate::order::sorted_by;
use crate::order::total;
use crate::order::transitive;
use crate::swap::backup_namespace;
use crate::text::all_digits;
use crate::text::forward_slashes;
use crate::text::is_numeric_name;
use crate::text::join_text;
use crate::text::normalize_path;
use crate::text::same_text;
use crate::text::views;
use crate::time::format_timestamp;
use crate::time::later_of;
use crate::time::latest_known;
use crate::time::seconds_of;
use crate::time::timestamp_text;
use crate::time::whole_seconds;
use crate::time::Timestamp;

verus! {

/// A profile as it is shown: its identifier, its display name, the number
/// of games it owns, whether it is a backup, where it lies, and its last
/// activity, in seconds since 1970 (0 where unknown) and as text.
#[derive(Debug)]
pub struct Profile {
    pub id: String,
    pub name: String,
    pub game_count: usize,
    pub is_backup: bool,
    pub path: String,
    pub last_login: String,
    pub last_activity: u64,
}

/// A profile as contracts see it.
pub struct ProfileView {
    pub id: Seq<char>,
    pub name: Seq<char>,
    pub game_count: nat,
    pub is_backup: bool,
    pub path: Seq<char>,
    pub last_login: Seq<char>,
    pub last_activity: u64,
}

impl View for Profile {
    type V = ProfileView;

    open spec fn view(&self) -> ProfileView {
        ProfileView {
            id: self.id@,
            name: self.name@,
            game_count: self.game_count as nat,
            is_backup: self.is_backup,
            path: self.path@,
            last_login: self.last_login@,
            last_activity: self.last_activity,
        }
    }
}

impl Profile {
    /// A copy of the profile.
    pub fn duplicate(&self) -> (r: Profile)
        ensures
            r@ == self@,
    {
        Profile {
            id: self.id.clone(),
            name: self.name.clone(),
            game_count: self.game_count,
            is_backup: self.is_backup,
            path: self.path.clone(),
            last_login: self.last_login.clone(),
            last_activity: self.last_activity,
        }
    }
}

/// What the disk says of one entry of the data root or of the backup
/// namespace: its name and path; whether it is a directory; whether the
/// profile of that name under the data root has a config file, the
/// content of that file where it can be read, and its modification time
/// where that can be read; the modification time of each file in the tree
/// under the entry, as far as it can be read; and the entries of the
/// directory.
#[derive(Debug)]
pub struct ProfileDir {
    pub name: String,
    pub path: String,
    pub is_dir: bool,
    pub has_config: bool,
    pub config: Option<String>,
    pub config_modified: Option<Timestamp>,
    pub file_times: Vec<Option<Timestamp>>,
    pub games: Vec<GameDir>,
}

/// What the disk says of a data root: its entries, none where it does not
/// exist or cannot be listed, and the entries of its backup namespace, none
/// where there is no such directory or it cannot be listed.
#[derive(Debug)]
pub struct DataRoot {
    pub entries: Option<Vec<ProfileDir>>,
    pub backups: Option<Vec<ProfileDir>>,
}

/// The latest of the first `n` of `times`, as far as they are known.
pub open spec fn latest_among(times: Seq<Option<Timestamp>>, n: int) -> Option<Timestamp>
    decreases n,
{
    if n <= 0 {
        None
    } else {
        latest_known(latest_among(times, n - 1), times[n - 1])
    }
}

/// The time of the latest change under a tree, in whole seconds since 1970,
/// given the modification time of each of its files; 0 where none is known.
pub fn get_latest_modified_time(times: &Vec<Option<Timestamp>>) -> (r: u64)
    ensures
        r == whole_seconds(latest_among(times@, times@.len() as int)),
{
    let mut latest: Option<Timestamp> = None;
    let mut i: usize = 0;
    while i < times.len()
        invariant
            i <= times.len(),
            latest == latest_among(times@, i as int),
        decreases times.len() - i,
    {
        latest = later_of(latest, times[i]);
        i += 1;
    }
    seconds_of(latest)
}

/// Whether an entry of the data root is a profile: a directory, not the
/// backup namespace, named by digits only, with a config file.
pub open spec fn is_primary(dir: ProfileDir) -> bool {
    &&& dir.is_dir
    &&& dir.name@ != backup_namespace()
    &&& all_digits(dir.name@)
    &&& dir.has_config
}

/// The profile that an entry of the data root stands for.
pub open spec fn primary_profile(index: Map<Seq<char>, EntryView>, dir: ProfileDir) -> ProfileView {
    ProfileView {
        id: dir.name@,
        name: persona_of(opt_text(dir.config), dir.name@),
        game_count: all_owned(index, dir.games@).len(),
        is_backup: false,
        path: forward_slashes(dir.path@),
        last_login: timestamp_text(whole_seconds(dir.config_modified)),
        last_activity: whole_seconds(dir.config_modified),
    }
}

/// Whether an entry of the backup namespace is shown as a profile: a
/// directory that owns at least one game.
pub open spec fn is_kept_backup(index: Map<Seq<char>, EntryView>, dir: ProfileDir) -> bool {
    dir.is_dir && all_owned(index, dir.games@).len() > 0
}

/// The seconds of the latest change under a backup.
pub open spec fn backup_activity(dir: ProfileDir) -> u64 {
    whole_seconds(latest_among(dir.file_times@, dir.file_times@.len() as int))
}

/// The profile that an entry of the backup namespace stands for.
pub open spec fn backup_profile(index: Map<Seq<char>, EntryView>, dir: ProfileDir) -> ProfileView {
    ProfileView {
        id: dir.name@,
        name: "Backup - "@ + persona_of(opt_text(dir.config), dir.name@),
        game_count: all_owned(index, dir.games@).len(),
        is_backup: true,
        path: forward_slashes(dir.path@),
        last_login: timestamp_text(backup_activity(dir)),
        last_activity: backup_activity(dir),
    }
}

/// The profiles among the first `n` entries of the data root, in the order
/// of the entries.
pub open spec fn primaries(index: Map<Seq<char>, EntryView>, dirs: Seq<ProfileDir>, n: int) -> Seq<
    ProfileView,
>
    decreases n,
{
    if n <= 0 {
        Seq::empty()
    } else if is_primary(dirs[n - 1]) {
        primaries(index, dirs, n - 1).push(primary_profile(index, dirs[n - 1]))
    } else {
        primaries(index, dirs, n - 1)
    }
}

/// The backups shown among the first `n` entries of the backup namespace,
/// in the order of the entries.
pub open spec fn kept_backups(
    index: Map<Seq<char>, EntryView>,
    dirs: Seq<ProfileDir>,
    n: int,
) -> Seq<ProfileView>
    decreases n,
{
    if n <= 0 {
        Seq::empty()
    } else if is_kept_backup(index, dirs[n - 1]) {
        kept_backups(index, dirs, n - 1).push(backup_profile(index, dirs[n - 1]))
    } else {
        kept_backups(index, dirs, n - 1)
    }
}

/// The entries of a listing; none where there is no listing.
pub open spec fn listed(dirs: Option<Vec<ProfileDir>>) -> Seq<ProfileDir> {
    match dirs {
        Some(list) => list@,
        None => Seq::empty(),
    }
}

/// The profiles of a data root as they are found: those of the data root,
/// then the backups. None at all where the data root cannot be listed.
pub open spec fn found(index: Map<Seq<char>, EntryView>, root: DataRoot) -> Seq<ProfileView> {
    if root.entries is None {
        Seq::empty()
    } else {
        primaries(index, listed(root.entries), listed(root.entries).len() as int) + kept_backups(
            index,
            listed(root.backups),
            listed(root.backups).len() as int,
        )
    }
}

/// The order in which profiles are shown: profiles before backups, and
/// among each the one with the later activity first.
pub open spec fn by_activity() -> spec_fn(ProfileView, ProfileView) -> bool {
    |a: ProfileView, b: ProfileView|
        (!a.is_backup && b.is_backup) || (a.is_backup == b.is_backup && a.last_activity
            >= b.last_activity)
}

/// The profiles of a data root as they are shown: sorted by
/// [`by_activity`], with profiles that this order takes for equal in the
/// order in which they were found.
pub open spec fn discovered(index: Map<Seq<char>, EntryView>, root: DataRoot) -> Seq<ProfileView> {
    sorted_by(found(index, root), by_activity())
}

fn shown_before(a: &Profile, b: &Profile) -> (r: bool)
    ensures
        r == by_activity()(a@, b@),
{
    (!a.is_backup && b.is_backup) || (a.is_backup == b.is_backup && a.last_activity
        >= b.last_activity)
}

/// Sorts profiles into the order in which they are shown.
pub fn sort_profiles(list: &Vec<Profile>) -> (r: Vec<Profile>)
    ensures
        views(r@) == sorted_by(views(list@), by_activity()),
{
    let mut out: Vec<Profile> = Vec::new();
    assert(views(list@).take(0) =~= Seq::<ProfileView>::empty());
    assert(views(out@) =~= Seq::<ProfileView>::empty());
    let mut i: usize = 0;
    while i < list.len()
        invariant
            i <= list.len(),
            views(out@) == sorted_by(views(list@).take(i as int), by_activity()),
        decreases list.len() - i,
    {
        let item = list[i].duplicate();
        let ghost sorted = views(out@);
        let mut j: usize = out.len();
        assert(sorted.take(j as int) =~= sorted);
        while j > 0 && !shown_before(&out[j - 1], &item)
            invariant
                j <= out.len(),
                sorted == views(out@),
                insert_place(sorted, item@, by_activity()) == insert_place(
                    sorted.take(j as int),
                    item@,
                    by_activity(),
                ),
            decreases j,
        {
            proof {
                let t = sorted.take(j as int);
                assert(t.last() == out@[j - 1]@);
                assert(t.drop_last() =~= sorted.take(j - 1));
            }
            j -= 1;
        }
        proof {
            let t = sorted.take(j as int);
            if j > 0 {
                assert(t.last() == out@[j - 1]@);
            }
            assert(insert_place(t, item@, by_activity()) == j);
            let next = views(list@).take(i + 1);
            assert(next.drop_last() =~= views(list@).take(i as int));
            assert(next.last() == item@);
        }
        out.insert(j, item);
        assert(views(out@) =~= sorted.insert(j as int, item@));
        i += 1;
    }
    assert(views(list@).take(list.len() as int) =~= views(list@));
    out
}

fn primary_of(dir: &ProfileDir, index: &LibraryIndex) -> (r: Option<Profile>)
    ensures
        match r {
            Some(p) => is_primary(*dir) && p@ == primary_profile(index@, *dir),
            None => !is_primary(*dir),
        },
{
    if !dir.is_dir {
        return None;
    }
    if same_text(dir.name.as_str(), "dunabackups") {
        return None;
    }
    if !is_numeric_name(dir.name.as_str()) {
        return None;
    }
    if !dir.has_config {
        return None;
    }
    let seconds = seconds_of(dir.config_modified);
    Some(
        Profile {
            id: dir.name.clone(),
            name: get_persona_name(&dir.config, dir.name.as_str()),
            game_count: count_profile_games(&dir.games, index),
            is_backup: false,
            path: normalize_path(dir.path.as_str()),
            last_login: format_timestamp(seconds),
            last_activity: seconds,
        },
    )
}

fn backup_of(dir: &ProfileDir, index: &LibraryIndex) -> (r: Option<Profile>)
    ensures
        match r {
            Some(p) => is_kept_backup(index@, *dir) && p@ == backup_profile(index@, *dir),
            None => !is_kept_backup(index@, *dir),
        },
{
    if !dir.is_dir {
        return None;
    }
    let game_count = count_profile_games(&dir.games, index);
    if game_count == 0 {
        return None;
    }
    let persona = get_persona_name(&dir.config, dir.name.as_str());
    let seconds = get_latest_modified_time(&dir.file_times);
    Some(
        Profile {
            id: dir.name.clone(),
            name: join_text("Backup - ", persona.as_str()),
            game_count,
            is_backup: true,
            path: normalize_path(dir.path.as_str()),
            last_login: format_timestamp(seconds),
            last_activity: seconds,
        },
    )
}

/// Finds the profiles of a data root and puts them in the order in which
/// they are shown.
pub fn discover_profiles(root: &DataRoot, index: &LibraryIndex) -> (r: Vec<Profile>)
    ensures
        views(r@) == discovered(index@, *root),
{
    let mut list: Vec<Profile> = Vec::new();
    assert(views(list@) =~= Seq::<ProfileView>::empty());
    match &root.entries {
        Some(entries) => {
            let mut i: usize = 0;
            while i < entries.len()
                invariant
                    i <= entries.len(),
                    views(list@) == primaries(index@, entries@, i as int),
                decreases entries.len() - i,
            {
                match primary_of(&entries[i], index) {
                    Some(p) => {
                        let ghost before = views(list@);
                        list.push(p);
                        assert(views(list@) =~= before.push(p@));
                    },
                    None => {},
                }
                i += 1;
            }
            let ghost first = views(list@);
            match &root.backups {
                Some(backups) => {
                    let mut k: usize = 0;
                    assert(first + Seq::<ProfileView>::empty() =~= first);
                    while k < backups.len()
                        invariant
                            k <= backups.len(),
                            views(list@) == first + kept_backups(index@, backups@, k as int),
                        decreases backups.len() - k,
                    {
                        match backup_of(&backups[k], index) {
                            Some(p) => {
                                let ghost before = views(list@);
                                list.push(p);
                                assert(views(list@) =~= before.push(p@));
                                assert(before.push(p@) =~= first + kept_backups(
                                    index@,
                                    backups@,
                                    k as int,
                                ).push(p@));
                            },
                            None => {},
                        }
                        k += 1;
                    }
                },
                None => {
                    assert(first + Seq::<ProfileView>::empty() =~= first);
                },
            }
            assert(views(list@) == found(index@, *root));
        },
        None => {},
    }
    sort_profiles(&list)
}


/// The order in which profiles are shown is total and transitive.
pub proof fn lemma_by_activity_is_order()
    ensures
        total(by_activity()),
        transitive(by_activity()),
{
    assert forall|a: ProfileView, b: ProfileView| #[trigger]
        by_activity()(a, b) || by_activity()(b, a) by {}
    assert forall|a: ProfileView, b: ProfileView, c: ProfileView| #[trigger]
        by_activity()(a, b) && #[trigger] by_activity()(b, c) implies by_activity()(a, c) by {}
}

/// Ordering. Among the profiles shown, no backup stands before a profile
/// that is none, and within each of the two groups no profile stands before
/// one with a later activity.
pub proof fn lemma_discovered_order(index: Map<Seq<char>, EntryView>, root: DataRoot)
    ensures
        forall|i: int, j: int|
            0 <= i < j < discovered(index, root).len() ==> {
                let a = #[trigger] discovered(index, root)[i];
                let b = #[trigger] discovered(index, root)[j];
                &&& a.is_backup ==> b.is_backup
                &&& a.is_backup == b.is_backup ==> a.last_activity >= b.last_activity
            },
{
    lemma_by_activity_is_order();
    lemma_sorted_ordered(found(index, root), by_activity());
    let out = discovered(index, root);
    assert forall|i: int, j: int| 0 <= i < j < out.len() implies {
        let a = #[trigger] out[i];
        let b = #[trigger] out[j];
        &&& a.is_backup ==> b.is_backup
        &&& a.is_backup == b.is_backup ==> a.last_activity >= b.last_activity
    } by {
        assert(by_activity()(out[i], out[j]));
    }
}

proof fn lemma_primaries_source(
    index: Map<Seq<char>, EntryView>,
    dirs: Seq<ProfileDir>,
    n: int,
    p: ProfileView,
)
    requires
        n <= dirs.len(),
        primaries(index, dirs, n).contains(p),
    ensures
        exists|k: int|
            0 <= k < n && is_primary(#[trigger] dirs[k]) && p == primary_profile(index, dirs[k]),
    decreases n,
{
    if n > 0 {
        let before = primaries(index, dirs, n - 1);
        let i = choose|i: int|
            0 <= i < primaries(index, dirs, n).len() && primaries(index, dirs, n)[i] == p;
        if is_primary(dirs[n - 1]) && i == before.len() {
            assert(is_primary(dirs[n - 1]) && p == primary_profile(index, dirs[n - 1]));
        } else {
            assert(before[i] == p);
            lemma_primaries_source(index, dirs, n - 1, p);
        }
    }
}

proof fn lemma_backups_source(
    index: Map<Seq<char>, EntryView>,
    dirs: Seq<ProfileDir>,
    n: int,
    p: ProfileView,
)
    requires
        n <= dirs.len(),
        kept_backups(index, dirs, n).contains(p),
    ensures
        exists|k: int|
            0 <= k < n && is_kept_backup(index, #[trigger] dirs[k]) && p == backup_profile(
                index,
                dirs[k],
            ),
    decreases n,
{
    if n > 0 {
        let before = kept_backups(index, dirs, n - 1);
        let i = choose|i: int|
            0 <= i < kept_backups(index, dirs, n).len() && kept_backups(index, dirs, n)[i] == p;
        if is_kept_backup(index, dirs[n - 1]) && i == before.len() {
            assert(is_kept_backup(index, dirs[n - 1]) && p == backup_profile(index, dirs[n - 1]));
        } else {
            assert(before[i] == p);
            lemma_backups_source(index, dirs, n - 1, p);
        }
    }
}

/// Where the profiles shown come from. A profile that is no backup stands
/// for a directory of the data root that has the config file, is named by
/// digits only and is not the backup namespace. A backup stands for a
/// directory of the backup namespace and owns at least one game.
pub proof fn lemma_discovered_sources(index: Map<Seq<char>, EntryView>, root: DataRoot, i: int)
    requires
        0 <= i < discovered(index, root).len(),
    ensures
        ({
            let p = discovered(index, root)[i];
            let entries = listed(root.entries);
            let backups = listed(root.backups);
            &&& !p.is_backup ==> exists|k: int|
                0 <= k < entries.len() && is_primary(#[trigger] entries[k]) && entries[k].has_config
                    && p == primary_profile(index, entries[k])
            &&& p.is_backup ==> p.game_count > 0 && exists|k: int|
                0 <= k < backups.len() && is_kept_backup(index, #[trigger] backups[k]) && p
                    == backup_profile(index, backups[k])
        }),
{
    broadcast use vstd::seq_lib::to_multiset_contains;

    let all = found(index, root);
    let out = discovered(index, root);
    let p = out[i];
    let entries = listed(root.entries);
    let backups = listed(root.backups);
    lemma_sorted_rearranges(all, by_activity());
    assert(out.to_multiset().contains(p));
    assert(all.to_multiset().contains(p));
    assert(all.contains(p));
    let first = primaries(index, entries, entries.len() as int);
    let second = kept_backups(index, backups, backups.len() as int);
    let k = choose|k: int| 0 <= k < all.len() && all[k] == p;
    if k < first.len() {
        assert(first[k] == p);
        lemma_primaries_source(index, entries, entries.len() as int, p);
    } else {
        assert(second[k - first.len()] == p);
        lemma_backups_source(index, backups, backups.len() as int, p);
    }
}

/// No profile without config file. Where no directory of the data root
/// that bears the name `id` has a config file, no profile `id` is shown,
/// whatever else the directories hold; backups of that name may be.
pub proof fn lemma_no_profile_without_config(
    index: Map<Seq<char>, EntryView>,
    root: DataRoot,
    id: Seq<char>,
)
    requires
        forall|k: int|
            0 <= k < listed(root.entries).len() && (#[trigger] listed(root.entries)[k]).name@ == id
                ==> !listed(root.entries)[k].has_config,
    ensures
        forall|i: int|
            0 <= i < discovered(index, root).len() && (#[trigger] discovered(index, root)[i]).id
                == id ==> discovered(index, root)[i].is_backup,
{
    assert forall|i: int|
        0 <= i < discovered(index, root).len() && (#[trigger] discovered(index, root)[i]).id
            == id implies discovered(index, root)[i].is_backup by {
        lemma_discovered_sources(index, root, i);
    }
}

/// Nothing is lost or made up: the profiles shown are those that were
/// found, each as often as it was found.
pub proof fn lemma_discovered_rearranges(index: Map<Seq<char>, EntryView>, root: DataRoot)
    ensures
        discovered(index, root).to_multiset() == found(index, root).to_multiset(),
        discovered(index, root).len() == found(index, root).len(),
{
    lemma_sorted_rearranges(found(index, root), by_activity());
    lemma_sorted_len(found(index, root), by_activity());
}

} // verus!
