//! Which games a profile owns, and under which names.
//!
//! A profile owns a game where it has a directory for it that is named by
//! digits only, holds more than the marker file of the remote cache, and
//! stands for a game that is known: by the library index, or else by a
//! manifest file in one of the library directories.

use vstd::prelude::*;
use crate::catalog::EntryView;
use crate::catalog::LibraryIndex;
use crate::fields::get_game_name_from_manifest;
use crate::fields::manifest_name;
use crate::fields::opt_texts;
use crate::order::insert_place;
use crate::order::lemma_sorted_ordered;
use crate::order::lemma_sorted_rearranges;
use crate::order::ordered;
use crate::order::sorted_by;
use crate::order::total;
use crate::order::transitive;
use crate::text::all_digits;
use crate::text::chars_of;
use crate::text::copy_texts;
use crate::text::eq_ignore_ascii_case;
use crate::text::is_numeric_name;
use crate::text::lemma_text_le_total;
use crate::text::lemma_text_le_transitive;
use crate::text::same_ignoring_ascii_case;
use crate::text::text_before_eq;
use crate::text::text_le;
use crate::text::texts;
use crate::text::views;

verus! {

/// A game by identifier and display name.
#[derive(Debug)]
pub struct GameInfo {
    pub id: String,
    pub name: String,
}

/// A game as contracts see it.
pub struct GameView {
    pub id: Seq<char>,
    pub name: Seq<char>,
}

impl View for GameInfo {
    type V = GameView;

    open spec fn view(&self) -> GameView {
        GameView { id: self.id@, name: self.name@ }
    }
}

/// What a directory listing says of one entry: its name, where that is
/// valid text, and whether it is a file.
#[derive(Debug)]
pub struct EntryInfo {
    pub name: Option<String>,
    pub is_file: bool,
}

/// What the disk says of one entry of a profile directory: its name,
/// whether it is a directory, its own entries (none where it cannot be
/// listed), and the content of the manifest file for that name in each
/// library directory, in the order of the library directories (none where
/// the file is missing or cannot be read).
#[derive(Debug)]
pub struct GameDir {
    pub name: String,
    pub is_dir: bool,
    pub entries: Option<Vec<EntryInfo>>,
    pub manifests: Vec<Option<String>>,
}

/// The name of the marker file of the remote cache.
pub open spec fn marker_name() -> Seq<char> {
    "remotecache.vdf"@
}

/// Whether an entry is the marker file of the remote cache: a file of that
/// name, however the name is capitalised.
pub open spec fn is_marker(entry: EntryInfo) -> bool {
    entry.is_file && match entry.name {
        Some(name) => same_ignoring_ascii_case(name@, marker_name()),
        None => false,
    }
}

/// Whether one of `entries` is not the marker file.
pub open spec fn holds_data(entries: Seq<EntryInfo>) -> bool {
    exists|i: int| 0 <= i < entries.len() && !is_marker(#[trigger] entries[i])
}

/// Whether a game directory holds game data: it can be listed and has an
/// entry that is not the marker file.
pub open spec fn meaningful(entries: Option<Vec<EntryInfo>>) -> bool {
    match entries {
        Some(list) => holds_data(list@),
        None => false,
    }
}

/// Tells whether a game directory holds game data.
pub fn has_meaningful_game_data(entries: &Option<Vec<EntryInfo>>) -> (r: bool)
    ensures
        r == meaningful(*entries),
{
    match entries {
        Some(list) => {
            let mut i: usize = 0;
            while i < list.len()
                invariant
                    i <= list.len(),
                    *entries == Some(*list),
                    forall|j: int| 0 <= j < i ==> is_marker(#[trigger] list@[j]),
                decreases list.len() - i,
            {
                let marker = list[i].is_file && match &list[i].name {
                    Some(name) => eq_ignore_ascii_case(name.as_str(), "remotecache.vdf"),
                    None => false,
                };
                if !marker {
                    assert(!is_marker(list@[i as int]));
                    return true;
                }
                i += 1;
            }
            false
        },
        None => false,
    }
}

/// What is known of the game `id`: what the index holds for it; else the
/// name that its manifests give, with no executables; else nothing.
pub open spec fn resolved(
    index: Map<Seq<char>, EntryView>,
    manifests: Seq<Option<Seq<char>>>,
    id: Seq<char>,
) -> Option<EntryView> {
    if index.dom().contains(id) {
        Some(index[id])
    } else {
        match manifest_name(manifests) {
            Some(name) => Some(EntryView { name, executables: Seq::empty() }),
            None => None,
        }
    }
}

/// Resolves a game to its display name and candidate executables: from the
/// library index, and where the index does not hold the game, from its
/// manifests.
pub fn get_game_info(index: &LibraryIndex, manifests: &Vec<Option<String>>, game_id: &str) -> (r:
    Option<(String, Vec<String>)>)
    ensures
        match r {
            Some((name, executables)) => resolved(index@, opt_texts(manifests@), game_id@) == Some(
                EntryView { name: name@, executables: texts(executables@) },
            ),
            None => resolved(index@, opt_texts(manifests@), game_id@) is None,
        },
{
    match index.get(game_id) {
        Some(entry) => Some((entry.name.clone(), copy_texts(&entry.executables))),
        None => match get_game_name_from_manifest(manifests) {
            Some(name) => {
                let none: Vec<String> = Vec::new();
                assert(texts(none@) =~= Seq::<Seq<char>>::empty());
                Some((name, none))
            },
            None => None,
        },
    }
}

/// Whether a profile owns the game that `dir` stands for.
pub open spec fn owns(index: Map<Seq<char>, EntryView>, dir: GameDir) -> bool {
    &&& dir.is_dir
    &&& all_digits(dir.name@)
    &&& meaningful(dir.entries)
    &&& resolved(index, opt_texts(dir.manifests@), dir.name@) is Some
}

/// The game that `dir` stands for, under its resolved name.
pub open spec fn game_of(index: Map<Seq<char>, EntryView>, dir: GameDir) -> GameView {
    GameView {
        id: dir.name@,
        name: match resolved(index, opt_texts(dir.manifests@), dir.name@) {
            Some(entry) => entry.name,
            None => Seq::empty(),
        },
    }
}

/// The games that a profile owns among the first `n` entries of its
/// directory, in the order of the entries.
pub open spec fn owned_games(index: Map<Seq<char>, EntryView>, dirs: Seq<GameDir>, n: int) -> Seq<
    GameView,
>
    decreases n,
{
    if n <= 0 {
        Seq::empty()
    } else {
        let before = owned_games(index, dirs, n - 1);
        if owns(index, dirs[n - 1]) {
            before.push(game_of(index, dirs[n - 1]))
        } else {
            before
        }
    }
}

/// All the games that a profile owns.
pub open spec fn all_owned(index: Map<Seq<char>, EntryView>, dirs: Seq<GameDir>) -> Seq<GameView> {
    owned_games(index, dirs, dirs.len() as int)
}

/// The game that `dir` stands for, if the profile owns it.
pub fn owned_game(dir: &GameDir, index: &LibraryIndex) -> (r: Option<GameInfo>)
    ensures
        match r {
            Some(game) => owns(index@, *dir) && game@ == game_of(index@, *dir),
            None => !owns(index@, *dir),
        },
{
    if !dir.is_dir {
        return None;
    }
    if !is_numeric_name(dir.name.as_str()) {
        return None;
    }
    if !has_meaningful_game_data(&dir.entries) {
        return None;
    }
    match get_game_info(index, &dir.manifests, dir.name.as_str()) {
        Some((name, _)) => Some(GameInfo { id: dir.name.clone(), name }),
        None => None,
    }
}

/// Counts the games that a profile owns, given the entries of its directory.
pub fn count_profile_games(dirs: &Vec<GameDir>, index: &LibraryIndex) -> (r: usize)
    ensures
        r == all_owned(index@, dirs@).len(),
{
    let mut count: usize = 0;
    let mut i: usize = 0;
    while i < dirs.len()
        invariant
            i <= dirs.len(),
            count <= i,
            count == owned_games(index@, dirs@, i as int).len(),
        decreases dirs.len() - i,
    {
        if owned_game(&dirs[i], index).is_some() {
            count += 1;
        }
        i += 1;
    }
    count
}

/// Lists the games that a profile owns, in the order of the entries of its
/// directory.
pub fn owned_list(dirs: &Vec<GameDir>, index: &LibraryIndex) -> (r: Vec<GameInfo>)
    ensures
        views(r@) == all_owned(index@, dirs@),
{
    let mut list: Vec<GameInfo> = Vec::new();
    assert(views(list@) =~= Seq::<GameView>::empty());
    let mut i: usize = 0;
    while i < dirs.len()
        invariant
            i <= dirs.len(),
            views(list@) == owned_games(index@, dirs@, i as int),
        decreases dirs.len() - i,
    {
        match owned_game(&dirs[i], index) {
            Some(game) => {
                let ghost before = views(list@);
                list.push(game);
                assert(views(list@) =~= before.push(game@));
            },
            None => {},
        }
        i += 1;
    }
    list
}

/// `s` in small letters, as Unicode maps capitals to them.
pub uninterp spec fn lowercased(s: Seq<char>) -> Seq<char>;

/// Turns a text into small letters with `str::to_lowercase`. The result is
/// the text named `lowercased`.
#[verifier::external_body]
fn lowercase(s: &str) -> (r: String)
    ensures
        r@ == lowercased(s@),
{
    s.to_lowercase()
}

/// A game together with the key by which it is sorted.
#[derive(Debug)]
pub struct KeyedGame {
    pub game: GameInfo,
    pub key: String,
}

/// A keyed game as contracts see it.
pub struct KeyedView {
    pub game: GameView,
    pub key: Seq<char>,
}

impl View for KeyedGame {
    type V = KeyedView;

    open spec fn view(&self) -> KeyedView {
        KeyedView { game: self.game@, key: self.key@ }
    }
}

/// The order of keyed games: that of their keys, as texts.
pub open spec fn by_key() -> spec_fn(KeyedView, KeyedView) -> bool {
    |a: KeyedView, b: KeyedView| text_le(a.key, b.key)
}

/// Sorts games by their keys. Games with equal keys keep their order.
pub fn sort_by_key(list: &Vec<KeyedGame>) -> (r: Vec<KeyedGame>)
    ensures
        views(r@) == sorted_by(views(list@), by_key()),
{
    let mut out: Vec<KeyedGame> = Vec::new();
    assert(views(list@).take(0) =~= Seq::<KeyedView>::empty());
    assert(views(out@) =~= Seq::<KeyedView>::empty());
    let mut i: usize = 0;
    while i < list.len()
        invariant
            i <= list.len(),
            views(out@) == sorted_by(views(list@).take(i as int), by_key()),
        decreases list.len() - i,
    {
        let item = KeyedGame {
            game: GameInfo { id: list[i].game.id.clone(), name: list[i].game.name.clone() },
            key: list[i].key.clone(),
        };
        assert(item@ == list@[i as int]@);
        let key = chars_of(item.key.as_str());
        let ghost sorted = views(out@);
        let mut j: usize = out.len();
        assert(sorted.take(j as int) =~= sorted);
        while j > 0 && !text_before_eq(&chars_of(out[j - 1].key.as_str()), &key)
            invariant
                j <= out.len(),
                sorted == views(out@),
                key@ == item@.key,
                insert_place(sorted, item@, by_key()) == insert_place(
                    sorted.take(j as int),
                    item@,
                    by_key(),
                ),
            decreases j,
        {
            proof {
                let t = sorted.take(j as int);
                assert(t.last() == out@[j - 1]@);
                assert(t.drop_last() =~= sorted.take(j - 1));
            }
            j -= 1;
        }
        proof {
            let t = sorted.take(j as int);
            if j > 0 {
                assert(t.last() == out@[j - 1]@);
            }
            assert(insert_place(t, item@, by_key()) == j);
            let next = views(list@).take(i + 1);
            assert(next.drop_last() =~= views(list@).take(i as int));
            assert(next.last() == item@);
        }
        out.insert(j, item);
        assert(views(out@) =~= sorted.insert(j as int, item@));
        i += 1;
    }
    assert(views(list@).take(list.len() as int) =~= views(list@));
    out
}

/// `games`, each with its name in small letters as key.
pub open spec fn keyed(games: Seq<GameView>) -> Seq<KeyedView> {
    Seq::new(games.len(), |i: int| KeyedView { game: games[i], key: lowercased(games[i].name) })
}

/// The games of a keyed list.
pub open spec fn unkeyed(list: Seq<KeyedView>) -> Seq<GameView> {
    Seq::new(list.len(), |i: int| list[i].game)
}

/// The games that a profile owns, sorted by their names in small letters;
/// games whose names are then equal in the order of the directory's entries.
pub open spec fn listed_games(index: Map<Seq<char>, EntryView>, dirs: Seq<GameDir>) -> Seq<
    GameView,
> {
    unkeyed(sorted_by(keyed(all_owned(index, dirs)), by_key()))
}

/// Lists the games that a profile owns, ordered by name.
pub fn get_games_for_profile(dirs: &Vec<GameDir>, index: &LibraryIndex) -> (r: Vec<GameInfo>)
    ensures
        views(r@) == listed_games(index@, dirs@),
{
    let owned = owned_list(dirs, index);
    let mut list: Vec<KeyedGame> = Vec::new();
    let mut i: usize = 0;
    while i < owned.len()
        invariant
            i <= owned.len(),
            list.len() == i,
            forall|j: int|
                0 <= j < i ==> (#[trigger] list@[j])@ == (KeyedView {
                    game: owned@[j]@,
                    key: lowercased(owned@[j].name@),
                }),
        decreases owned.len() - i,
    {
        let key = lowercase(owned[i].name.as_str());
        list.push(
            KeyedGame {
                game: GameInfo { id: owned[i].id.clone(), name: owned[i].name.clone() },
                key,
            },
        );
        i += 1;
    }
    assert(views(list@) =~= keyed(views(owned@)));
    let sorted = sort_by_key(&list);
    let mut games: Vec<GameInfo> = Vec::new();
    let mut k: usize = 0;
    while k < sorted.len()
        invariant
            k <= sorted.len(),
            games.len() == k,
            forall|j: int| 0 <= j < k ==> (#[trigger] games@[j])@ == sorted@[j]@.game,
        decreases sorted.len() - k,
    {
        games.push(GameInfo { id: sorted[k].game.id.clone(), name: sorted[k].game.name.clone() });
        k += 1;
    }
    assert(views(games@) =~= unkeyed(views(sorted@)));
    games
}

/// The order of keyed games is total and transitive.
pub proof fn lemma_by_key_is_order()
    ensures
        total(by_key()),
        transitive(by_key()),
{
    assert forall|a: KeyedView, b: KeyedView| #[trigger] by_key()(a, b) || by_key()(b, a) by {
        lemma_text_le_total(a.key, b.key);
    }
    assert forall|a: KeyedView, b: KeyedView, c: KeyedView| #[trigger]
        by_key()(a, b) && #[trigger] by_key()(b, c) implies by_key()(a, c) by {
        lemma_text_le_transitive(a.key, b.key, c.key);
    }
}

/// The list of a profile's games is in the order of the names in small
/// letters, and holds the games that the profile owns, each as often as the
/// profile's directory gives it.
pub proof fn lemma_listed_games(index: Map<Seq<char>, EntryView>, dirs: Seq<GameDir>)
    ensures
        ({
            let sorted = sorted_by(keyed(all_owned(index, dirs)), by_key());
            &&& listed_games(index, dirs) == unkeyed(sorted)
            &&& ordered(sorted, by_key())
            &&& sorted.to_multiset() == keyed(all_owned(index, dirs)).to_multiset()
            &&& forall|i: int, j: int|
                0 <= i < j < listed_games(index, dirs).len() ==> text_le(
                    lowercased(#[trigger] listed_games(index, dirs)[i].name),
                    lowercased(#[trigger] listed_games(index, dirs)[j].name),
                )
        }),
{
    let input = keyed(all_owned(index, dirs));
    let sorted = sorted_by(input, by_key());
    lemma_by_key_is_order();
    lemma_sorted_ordered(input, by_key());
    lemma_sorted_rearranges(input, by_key());
    crate::order::lemma_sorted_len(input, by_key());
    let out = listed_games(index, dirs);
    assert forall|i: int| 0 <= i < sorted.len() implies (#[trigger] sorted[i]).key == lowercased(
        sorted[i].game.name,
    ) by {
        broadcast use vstd::seq_lib::to_multiset_contains;

        assert(sorted.to_multiset().contains(sorted[i]));
        assert(input.to_multiset().contains(sorted[i]));
        assert(input.contains(sorted[i]));
        let k = choose|k: int| 0 <= k < input.len() && input[k] == sorted[i];
        assert(input[k].key == lowercased(input[k].game.name));
    }
    assert forall|i: int, j: int| 0 <= i < j < out.len() implies text_le(
        lowercased(#[trigger] out[i].name),
        lowercased(#[trigger] out[j].name),
    ) by {
        assert(by_key()(sorted[i], sorted[j]));
    }
}

} // verus!
