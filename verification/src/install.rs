//! Where the game client is installed, and how its directories are laid
//! out.
//!
//! The caller looks at the disk and reports what it saw as [`PathProbe`]s;
//! the functions here decide.

use vstd::prelude::*;
use crate::fields::opt_text;
use crate::text::all_digits;
use crate::text::copy_text;
use crate::text::forward_slashes;
use crate::text::is_numeric_name;
use crate::text::contains_text;
use crate::text::join_text;
use crate::text::normalize_path;
use crate::text::same_text;
use crate::text::texts;

verus! {

/// What the disk says of a path: whether anything is there, and whether it
/// is a directory. Two probes of one place carry the same text.
#[derive(Debug)]
pub struct PathProbe {
    pub path: String,
    pub exists: bool,
    pub is_dir: bool,
}

/// The two roots that all else starts from: the data root, and the
/// directory in which the client is installed. Both with forward slashes.
#[derive(Debug)]
pub struct AppState {
    pub userdata_path: String,
    pub steam_path: String,
}

/// Why no installation was found.
#[derive(Clone, Copy, PartialEq, Eq, Structural, Debug)]
pub enum InstallError {
    /// None of the usual places holds the client.
    NotDetected,
    /// The client was found, its data root was not.
    NoDataRootInside,
    /// Nothing is at the path that was given.
    PathMissing,
    /// The path that was given is no data root and holds none.
    NoDataRootAt,
}

impl InstallError {
    /// The error in words.
    pub fn message(&self) -> (r: String)
        ensures
            r@ == match *self {
                InstallError::NotDetected => "Could not detect Steam installation"@,
                InstallError::NoDataRootInside => "Could not find userdata folder in Steam directory"@,
                InstallError::PathMissing => "Path does not exist"@,
                InstallError::NoDataRootAt => "Could not find 'userdata' folder. Please select the Steam folder or the userdata folder directly."@,
            },
    {
        match self {
            InstallError::NotDetected => copy_text("Could not detect Steam installation"),
            InstallError::NoDataRootInside => copy_text(
                "Could not find userdata folder in Steam directory",
            ),
            InstallError::PathMissing => copy_text("Path does not exist"),
            InstallError::NoDataRootAt => copy_text(
                "Could not find 'userdata' folder. Please select the Steam folder or the userdata folder directly.",
            ),
        }
    }
}

/// The name of the data root inside the installation.
pub fn data_root_name() -> (r: String)
    ensures
        r@ == "userdata"@,
{
    copy_text("userdata")
}

/// The name of a library directory inside an installation or a library
/// folder.
pub fn library_dir_name() -> (r: String)
    ensures
        r@ == "steamapps"@,
{
    copy_text("steamapps")
}

/// The name of the registry of library folders, inside the main library
/// directory.
pub fn library_registry_name() -> (r: String)
    ensures
        r@ == "libraryfolders.vdf"@,
{
    copy_text("libraryfolders.vdf")
}

/// The names that lead from the installation to the catalog file.
pub fn catalog_segments() -> (r: Vec<String>)
    ensures
        texts(r@) == seq!["appcache"@, "appinfo.vdf"@],
{
    let mut r: Vec<String> = Vec::new();
    r.push(copy_text("appcache"));
    r.push(copy_text("appinfo.vdf"));
    assert(texts(r@) =~= seq!["appcache"@, "appinfo.vdf"@]);
    r
}

/// The names that lead from a profile's directory to its config file.
pub fn config_segments() -> (r: Vec<String>)
    ensures
        texts(r@) == seq!["config"@, "localconfig.vdf"@],
{
    let mut r: Vec<String> = Vec::new();
    r.push(copy_text("config"));
    r.push(copy_text("localconfig.vdf"));
    assert(texts(r@) =~= seq!["config"@, "localconfig.vdf"@]);
    r
}

/// The name of the manifest file of a game.
pub fn manifest_file_name(game_id: &str) -> (r: String)
    ensures
        r@ == "appmanifest_"@ + game_id@ + ".acf"@,
{
    let mut r = join_text("appmanifest_", game_id);
    r.append(".acf");
    r
}

/// The kind of system that the client runs on.
#[derive(Clone, Copy, PartialEq, Eq, Structural, Debug)]
pub enum Platform {
    Windows,
    Linux,
    MacOs,
    Other,
}

/// The usual places of the installation below the user's home directory,
/// each as the names that lead there, in the order in which they are
/// tried. None on Windows, where the registry tells the place.
pub open spec fn usual_places(platform: Platform) -> Seq<Seq<Seq<char>>> {
    match platform {
        Platform::Linux => seq![seq![".steam"@, "steam"@], seq![".local/share/Steam"@]],
        Platform::MacOs => seq![seq!["Library/Application Support/Steam"@]],
        _ => Seq::empty(),
    }
}

/// The usual places of the installation below the user's home directory.
pub fn home_candidates(platform: Platform) -> (r: Vec<Vec<String>>)
    ensures
        r@.len() == usual_places(platform).len(),
        forall|i: int| 0 <= i < r@.len() ==> texts((#[trigger] r@[i])@) == usual_places(platform)[i],
{
    let mut r: Vec<Vec<String>> = Vec::new();
    match platform {
        Platform::Linux => {
            let mut first: Vec<String> = Vec::new();
            first.push(copy_text(".steam"));
            first.push(copy_text("steam"));
            assert(texts(first@) =~= seq![".steam"@, "steam"@]);
            let mut second: Vec<String> = Vec::new();
            second.push(copy_text(".local/share/Steam"));
            assert(texts(second@) =~= seq![".local/share/Steam"@]);
            r.push(first);
            r.push(second);
        },
        Platform::MacOs => {
            let mut only: Vec<String> = Vec::new();
            only.push(copy_text("Library/Application Support/Steam"));
            assert(texts(only@) =~= seq!["Library/Application Support/Steam"@]);
            r.push(only);
        },
        _ => {},
    }
    r
}

/// The key and the value of the Windows registry, under the current
/// user, that tell where the client is installed.
pub fn registry_location() -> (r: (String, String))
    ensures
        r.0@ == "Software\\Valve\\Steam"@,
        r.1@ == "SteamPath"@,
{
    (copy_text("Software\\Valve\\Steam"), copy_text("SteamPath"))
}

/// The path of the first of `candidates`, at or behind `from`, at which
/// something exists.
pub open spec fn first_existing(candidates: Seq<PathProbe>, from: int) -> Option<Seq<char>>
    decreases candidates.len() - from,
{
    if from < 0 || from >= candidates.len() {
        None
    } else if candidates[from].exists {
        Some(candidates[from].path@)
    } else {
        first_existing(candidates, from + 1)
    }
}

/// Picks the installation among the places where it may be: the first at
/// which something exists.
pub fn detect_steam_path(candidates: &Vec<PathProbe>) -> (r: Option<String>)
    ensures
        opt_text(r) == first_existing(candidates@, 0),
{
    let mut i: usize = 0;
    while i < candidates.len()
        invariant
            i <= candidates.len(),
            first_existing(candidates@, 0) == first_existing(candidates@, i as int),
        decreases candidates.len() - i,
    {
        if candidates[i].exists {
            return Some(candidates[i].path.clone());
        }
        i += 1;
    }
    None
}

/// The data root of an installation, given what the disk says of the place
/// where it should be: that place, where a directory is there.
pub open spec fn data_root_at(place: PathProbe) -> Option<Seq<char>> {
    if place.exists && place.is_dir {
        Some(place.path@)
    } else {
        None
    }
}

/// Finds the data root of an installation, given what the disk says of the
/// place where it should be.
pub fn find_userdata_path(place: &PathProbe) -> (r: Option<String>)
    ensures
        opt_text(r) == data_root_at(*place),
{
    if place.exists && place.is_dir {
        Some(place.path.clone())
    } else {
        None
    }
}

/// An installation that was found, with what the disk says of the place of
/// its data root.
#[derive(Debug)]
pub struct Installation {
    pub path: String,
    pub data_root: PathProbe,
}

/// The two roots as contracts see them.
pub struct RootsView {
    pub userdata_path: Seq<char>,
    pub steam_path: Seq<char>,
}

impl View for AppState {
    type V = RootsView;

    open spec fn view(&self) -> RootsView {
        RootsView { userdata_path: self.userdata_path@, steam_path: self.steam_path@ }
    }
}

/// The view of an outcome.
pub open spec fn outcome_view(r: Result<AppState, InstallError>) -> Result<RootsView, InstallError> {
    match r {
        Ok(roots) => Ok(roots@),
        Err(e) => Err(e),
    }
}

/// What detection comes to.
pub open spec fn detected(found: Option<Installation>) -> Result<RootsView, InstallError> {
    match found {
        None => Err(InstallError::NotDetected),
        Some(installation) => match data_root_at(installation.data_root) {
            None => Err(InstallError::NoDataRootInside),
            Some(root) => Ok(
                RootsView {
                    userdata_path: forward_slashes(root),
                    steam_path: forward_slashes(installation.path@),
                },
            ),
        },
    }
}

/// Detects the installation: given the installation that was found in one
/// of the usual places, if any, tells the two roots, or why there are none.
pub fn detect_steam(found: &Option<Installation>) -> (r: Result<AppState, InstallError>)
    ensures
        outcome_view(r) == detected(*found),
{
    match found {
        None => Err(InstallError::NotDetected),
        Some(installation) => match find_userdata_path(&installation.data_root) {
            None => Err(InstallError::NoDataRootInside),
            Some(root) => Ok(
                AppState {
                    userdata_path: normalize_path(root.as_str()),
                    steam_path: normalize_path(installation.path.as_str()),
                },
            ),
        },
    }
}

/// One entry of a directory: its name, and whether it is a directory.
#[derive(Debug)]
pub struct ChildInfo {
    pub name: String,
    pub is_dir: bool,
}

/// What the disk says of a path that the user gave: of the path itself; its
/// last name and its parent, where it has them; its entries, where it can
/// be listed; and of the place of a data root inside it.
#[derive(Debug)]
pub struct GivenPath {
    pub place: PathProbe,
    pub file_name: Option<String>,
    pub parent: Option<String>,
    pub children: Option<Vec<ChildInfo>>,
    pub data_root: PathProbe,
}

/// Whether one of `children` is a directory named by digits only.
pub open spec fn holds_profile(children: Seq<ChildInfo>) -> bool {
    exists|i: int|
        0 <= i < children.len() && (#[trigger] children[i]).is_dir && all_digits(children[i].name@)
}

/// Whether the path that was given is itself a data root: a directory
/// named `userdata` that can be listed and holds a directory named by
/// digits only.
pub open spec fn is_data_root(given: GivenPath) -> bool {
    &&& given.file_name matches Some(name) && name@ == "userdata"@
    &&& given.place.is_dir
    &&& given.children matches Some(list) && holds_profile(list@)
}

/// What the validation of a given path comes to: the path as data root,
/// with its parent (itself, where it has none) as installation; else the
/// path as installation with the data root inside it; else an error.
pub open spec fn validated(given: GivenPath) -> Result<RootsView, InstallError> {
    if !given.place.exists {
        Err(InstallError::PathMissing)
    } else if is_data_root(given) {
        Ok(
            RootsView {
                userdata_path: forward_slashes(given.place.path@),
                steam_path: forward_slashes(
                    match given.parent {
                        Some(parent) => parent@,
                        None => given.place.path@,
                    },
                ),
            },
        )
    } else {
        match data_root_at(given.data_root) {
            Some(root) => Ok(
                RootsView {
                    userdata_path: forward_slashes(root),
                    steam_path: forward_slashes(given.place.path@),
                },
            ),
            None => Err(InstallError::NoDataRootAt),
        }
    }
}

fn has_profile(children: &Vec<ChildInfo>) -> (r: bool)
    ensures
        r == holds_profile(children@),
{
    let mut i: usize = 0;
    while i < children.len()
        invariant
            i <= children.len(),
            forall|j: int|
                0 <= j < i ==> !((#[trigger] children@[j]).is_dir && all_digits(
                    children@[j].name@,
                )),
        decreases children.len() - i,
    {
        if children[i].is_dir && is_numeric_name(children[i].name.as_str()) {
            return true;
        }
        i += 1;
    }
    false
}

fn given_is_data_root(given: &GivenPath) -> (r: bool)
    ensures
        r == is_data_root(*given),
{
    let named = match &given.file_name {
        Some(name) => same_text(name.as_str(), "userdata"),
        None => false,
    };
    if !named || !given.place.is_dir {
        return false;
    }
    match &given.children {
        Some(list) => has_profile(list),
        None => false,
    }
}

/// Validates a path that the user gave as the place of the installation or
/// of its data root.
pub fn validate_steam_path(given: &GivenPath) -> (r: Result<AppState, InstallError>)
    ensures
        outcome_view(r) == validated(*given),
{
    if !given.place.exists {
        return Err(InstallError::PathMissing);
    }
    if given_is_data_root(given) {
        let steam = match &given.parent {
            Some(parent) => normalize_path(parent.as_str()),
            None => normalize_path(given.place.path.as_str()),
        };
        return Ok(
            AppState { userdata_path: normalize_path(given.place.path.as_str()), steam_path: steam },
        );
    }
    match find_userdata_path(&given.data_root) {
        Some(root) => Ok(
            AppState {
                userdata_path: normalize_path(root.as_str()),
                steam_path: normalize_path(given.place.path.as_str()),
            },
        ),
        None => Err(InstallError::NoDataRootAt),
    }
}

/// The library directories among the main one and the first `n` declared
/// ones: the main one where it exists, then each declared one that exists
/// and is not there already.
pub open spec fn library_dirs(main: PathProbe, declared: Seq<PathProbe>, n: int) -> Seq<Seq<char>>
    decreases n,
{
    if n <= 0 {
        if main.exists {
            seq![main.path@]
        } else {
            Seq::empty()
        }
    } else {
        let before = library_dirs(main, declared, n - 1);
        if declared[n - 1].exists && !before.contains(declared[n - 1].path@) {
            before.push(declared[n - 1].path@)
        } else {
            before
        }
    }
}

/// Lists the library directories: the main one, then those of the declared
/// library folders, given what the disk says of each. What does not exist
/// or is there already is left out.
pub fn find_all_steamapps_dirs(main: &PathProbe, declared: &Vec<PathProbe>) -> (r: Vec<String>)
    ensures
        texts(r@) == library_dirs(*main, declared@, declared@.len() as int),
{
    let mut dirs: Vec<String> = Vec::new();
    if main.exists {
        dirs.push(main.path.clone());
    }
    assert(texts(dirs@) =~= library_dirs(*main, declared@, 0));
    let mut i: usize = 0;
    while i < declared.len()
        invariant
            i <= declared.len(),
            texts(dirs@) == library_dirs(*main, declared@, i as int),
        decreases declared.len() - i,
    {
        if declared[i].exists && !contains_text(&dirs, declared[i].path.as_str()) {
            let ghost before = texts(dirs@);
            dirs.push(declared[i].path.clone());
            assert(texts(dirs@) =~= before.push(declared@[i as int].path@));
        }
        i += 1;
    }
    dirs
}


/// Whether `path` is that of the main library directory or of one of the
/// first `n` declared ones, and exists.
pub open spec fn is_existing_library(
    main: PathProbe,
    declared: Seq<PathProbe>,
    n: int,
    path: Seq<char>,
) -> bool {
    ||| main.exists && main.path@ == path
    ||| exists|k: int| 0 <= k < n && (#[trigger] declared[k]).exists && declared[k].path@ == path
}

/// No library directory is listed twice, and each one that is listed
/// exists.
pub proof fn lemma_library_dirs(main: PathProbe, declared: Seq<PathProbe>, n: int)
    requires
        n <= declared.len(),
    ensures
        forall|i: int, j: int|
            0 <= i < j < library_dirs(main, declared, n).len() ==> library_dirs(main, declared, n)[i]
                != library_dirs(main, declared, n)[j],
        forall|i: int|
            0 <= i < library_dirs(main, declared, n).len() ==> is_existing_library(
                main,
                declared,
                n,
                #[trigger] library_dirs(main, declared, n)[i],
            ),
    decreases n,
{
    if n > 0 {
        lemma_library_dirs(main, declared, n - 1);
        let before = library_dirs(main, declared, n - 1);
        let dirs = library_dirs(main, declared, n);
        assert forall|i: int| 0 <= i < dirs.len() implies is_existing_library(
            main,
            declared,
            n,
            #[trigger] dirs[i],
        ) by {
            if i < before.len() {
                assert(dirs[i] == before[i]);
                assert(is_existing_library(main, declared, n - 1, before[i]));
            } else {
                assert(declared[n - 1].exists && declared[n - 1].path@ == dirs[i]);
            }
        }
        assert forall|i: int, j: int| 0 <= i < j < dirs.len() implies dirs[i] != dirs[j] by {
            if j < before.len() {
                assert(dirs[i] == before[i] && dirs[j] == before[j]);
            } else {
                assert(before[i] == dirs[i]);
                assert(before.contains(dirs[i]));
            }
        }
    }
}

} // verus!
