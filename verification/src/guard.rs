//! The guard against swapping the data of a game that is running.

use vstd::prelude::*;
use crate::catalog::EntryView;
use crate::catalog::LibraryIndex;
use crate::text::eq_ignore_ascii_case;
use crate::text::same_ignoring_ascii_case;
use crate::text::texts;

verus! {

/// The candidate executables of the first `n` of `ids`, game by game: those
/// that the index holds for a game, none for a game that it does not hold.
pub open spec fn candidates(index: Map<Seq<char>, EntryView>, ids: Seq<Seq<char>>, n: int) -> Seq<
    Seq<char>,
>
    decreases n,
{
    if n <= 0 {
        Seq::empty()
    } else if index.dom().contains(ids[n - 1]) {
        candidates(index, ids, n - 1) + index[ids[n - 1]].executables
    } else {
        candidates(index, ids, n - 1)
    }
}

/// The candidate executables of all of `ids`.
pub open spec fn all_candidates(index: Map<Seq<char>, EntryView>, ids: Seq<Seq<char>>) -> Seq<
    Seq<char>,
> {
    candidates(index, ids, ids.len() as int)
}

/// Games that the index does not hold have no candidate executables.
pub proof fn lemma_unknown_games(index: Map<Seq<char>, EntryView>, ids: Seq<Seq<char>>, n: int)
    requires
        n <= ids.len(),
        forall|i: int| 0 <= i < ids.len() ==> !index.dom().contains(#[trigger] ids[i]),
    ensures
        candidates(index, ids, n).len() == 0,
    decreases n,
{
    if n > 0 {
        lemma_unknown_games(index, ids, n - 1);
    }
}

/// Collects the candidate executables of the games.
pub fn candidate_executables(index: &LibraryIndex, game_ids: &Vec<String>) -> (r: Vec<String>)
    ensures
        texts(r@) == all_candidates(index@, texts(game_ids@)),
{
    let mut names: Vec<String> = Vec::new();
    assert(texts(names@) =~= Seq::<Seq<char>>::empty());
    let mut i: usize = 0;
    while i < game_ids.len()
        invariant
            i <= game_ids.len(),
            texts(names@) == candidates(index@, texts(game_ids@), i as int),
        decreases game_ids.len() - i,
    {
        assert(texts(game_ids@)[i as int] == game_ids@[i as int]@);
        match index.get(game_ids[i].as_str()) {
            Some(entry) => {
                let ghost start = texts(names@);
                let mut k: usize = 0;
                assert(texts(entry.executables@).take(0) =~= Seq::<Seq<char>>::empty());
                assert(start + Seq::<Seq<char>>::empty() =~= start);
                while k < entry.executables.len()
                    invariant
                        k <= entry.executables.len(),
                        texts(names@) == start + texts(entry.executables@).take(k as int),
                    decreases entry.executables.len() - k,
                {
                    let ghost before = texts(names@);
                    names.push(entry.executables[k].clone());
                    assert(texts(names@) =~= before.push(entry.executables@[k as int]@));
                    assert(before.push(entry.executables@[k as int]@) =~= start + texts(
                        entry.executables@,
                    ).take(k + 1));
                    k += 1;
                }
                assert(texts(entry.executables@).take(entry.executables@.len() as int) =~= texts(
                    entry.executables@,
                ));
            },
            None => {},
        }
        i += 1;
    }
    names
}

/// Whether one of `processes` bears the name of one of `executables`, the
/// case of ASCII letters set aside.
pub open spec fn any_match(executables: Seq<Seq<char>>, processes: Seq<Seq<char>>) -> bool {
    exists|i: int, j: int|
        0 <= i < processes.len() && 0 <= j < executables.len() && same_ignoring_ascii_case(
            #[trigger] processes[i],
            #[trigger] executables[j],
        )
}

/// Tells whether a running process bears the name of a candidate
/// executable.
pub fn any_process_matches(exe_names: &Vec<String>, process_names: &Vec<String>) -> (r: bool)
    ensures
        r == any_match(texts(exe_names@), texts(process_names@)),
{
    let ghost exes = texts(exe_names@);
    let ghost procs = texts(process_names@);
    let mut i: usize = 0;
    while i < process_names.len()
        invariant
            i <= process_names.len(),
            exes == texts(exe_names@),
            procs == texts(process_names@),
            forall|a: int, b: int|
                0 <= a < i && 0 <= b < exes.len() ==> !same_ignoring_ascii_case(
                    #[trigger] procs[a],
                    #[trigger] exes[b],
                ),
        decreases process_names.len() - i,
    {
        let mut j: usize = 0;
        while j < exe_names.len()
            invariant
                i < process_names.len(),
                j <= exe_names.len(),
                exes == texts(exe_names@),
                procs == texts(process_names@),
                forall|b: int|
                    0 <= b < j ==> !same_ignoring_ascii_case(procs[i as int], #[trigger] exes[b]),
            decreases exe_names.len() - j,
        {
            if eq_ignore_ascii_case(process_names[i].as_str(), exe_names[j].as_str()) {
                assert(same_ignoring_ascii_case(procs[i as int], exes[j as int]));
                return true;
            }
            j += 1;
        }
        i += 1;
    }
    false
}

/// Lists the names of the processes that run on this machine, with
/// `sysinfo::System::refresh_processes` and `processes`. Nothing is
/// claimed of the list: it is what the machine runs at that moment.
#[verifier::external_body]
fn running_process_names() -> (names: Vec<String>) {
    let mut sys = sysinfo::System::new();
    sys.refresh_processes(sysinfo::ProcessesToUpdate::All, true);
    sys.processes().values().map(|p| p.name().to_string_lossy().to_string()).collect()
}

/// Tells whether one of the games is running: whether a process on this
/// machine bears the name of one of their candidate executables. Games
/// that the index does not hold are passed over, and the processes are not
/// looked at where there is no candidate.
pub fn check_games_running(index: &LibraryIndex, game_ids: &Vec<String>) -> (r: bool)
    ensures
        game_ids@.len() == 0 ==> !r,
        all_candidates(index@, texts(game_ids@)).len() == 0 ==> !r,
        (forall|i: int|
            0 <= i < game_ids@.len() ==> !index@.dom().contains((#[trigger] game_ids@[i])@))
            ==> !r,
{
    if game_ids.len() == 0 {
        return false;
    }
    let exe_names = candidate_executables(index, game_ids);
    proof {
        if forall|i: int|
            0 <= i < game_ids@.len() ==> !index@.dom().contains((#[trigger] game_ids@[i])@) {
            assert forall|i: int| 0 <= i < texts(game_ids@).len() implies !index@.dom().contains(
                #[trigger] texts(game_ids@)[i],
            ) by {
                assert(texts(game_ids@)[i] == game_ids@[i]@);
            }
            lemma_unknown_games(index@, texts(game_ids@), game_ids@.len() as int);
        }
    }
    if exe_names.len() == 0 {
        return false;
    }
    let process_names = running_process_names();
    any_process_matches(&exe_names, &process_names)
}

} // verus!
