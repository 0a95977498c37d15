//! The library index: for each game of the catalog its display name and the
//! file names of the programs that start it.
//!
//! The catalog comes decoded, as a [`Document`]. [`catalog_index`] says which
//! index a document gives, [`build_index`] computes it.

use vstd::prelude::*;
use crate::text::contains_text;
use crate::text::copy_texts;
use crate::text::file_name_of;
use crate::text::forward_slashes;
use crate::text::last_segment;
use crate::text::lemma_last_segment;
use crate::text::same_text;
use crate::text::slash_free;
use crate::text::slashes_forward;
use crate::text::text_of;
use crate::text::texts;

verus! {

/// A decoded catalog: a tree of typed values. A number is held as its
/// decimal text.
#[derive(Debug)]
pub enum Document {
    Null,
    Bool(bool),
    Number(String),
    Text(String),
    Array(Vec<Document>),
    Object(Vec<Member>),
}

/// One named value of an object.
#[derive(Debug)]
pub struct Member {
    pub key: String,
    pub value: Document,
}

/// The value of the first member at or behind `from` that is named `key`.
pub open spec fn member_from(members: Seq<Member>, key: Seq<char>, from: int) -> Option<Document>
    decreases members.len() - from,
{
    if from < 0 || from >= members.len() {
        None
    } else if members[from].key@ == key {
        Some(members[from].value)
    } else {
        member_from(members, key, from + 1)
    }
}

impl Document {
    /// The value named `key` where the document is an object that has one.
    pub open spec fn field(self, key: Seq<char>) -> Option<Document> {
        match self {
            Document::Object(members) => member_from(members@, key, 0),
            _ => None,
        }
    }

    /// The text where the document is one.
    pub open spec fn text(self) -> Option<Seq<char>> {
        match self {
            Document::Text(s) => Some(s@),
            _ => None,
        }
    }

    /// The members where the document is an object; none otherwise.
    pub open spec fn members(self) -> Seq<Member> {
        match self {
            Document::Object(members) => members@,
            _ => Seq::empty(),
        }
    }

    /// Looks up the value named `key`.
    pub fn get(&self, key: &str) -> (r: Option<&Document>)
        ensures
            match r {
                Some(d) => self.field(key@) == Some(*d),
                None => self.field(key@) is None,
            },
    {
        match self {
            Document::Object(members) => {
                let mut i: usize = 0;
                while i < members.len()
                    invariant
                        i <= members.len(),
                        self.field(key@) == member_from(members@, key@, i as int),
                    decreases members.len() - i,
                {
                    if same_text(members[i].key.as_str(), key) {
                        return Some(&members[i].value);
                    }
                    i += 1;
                }
                None
            },
            _ => None,
        }
    }

    /// The text of the document, if it is one.
    pub fn as_text(&self) -> (r: Option<&String>)
        ensures
            match r {
                Some(s) => self.text() == Some(s@),
                None => self.text() is None,
            },
    {
        match self {
            Document::Text(s) => Some(s),
            _ => None,
        }
    }
}

/// What the index holds for one game.
pub struct EntryView {
    pub name: Seq<char>,
    pub executables: Seq<Seq<char>>,
}

/// The identifier of a catalog entry: its `appid`, where that is a number.
pub open spec fn entry_id(entry: Document) -> Option<Seq<char>> {
    match entry.field("appid"@) {
        Some(Document::Number(n)) => Some(n@),
        _ => None,
    }
}

/// The display name of a catalog entry: the text at `common`, `name`; empty
/// where there is none.
pub open spec fn entry_name(entry: Document) -> Seq<char> {
    match entry.field("common"@) {
        Some(common) => match common.field("name"@) {
            Some(name) => match name.text() {
                Some(s) => s,
                None => Seq::empty(),
            },
            None => Seq::empty(),
        },
        None => Seq::empty(),
    }
}

/// The launch configurations of a catalog entry: the members of the object
/// at `config`, `launch`.
pub open spec fn launch_configs(entry: Document) -> Seq<Member> {
    match entry.field("config"@) {
        Some(config) => match config.field("launch"@) {
            Some(launch) => launch.members(),
            None => Seq::empty(),
        },
        None => Seq::empty(),
    }
}

/// The program that a launch configuration names: the text at `executable`.
pub open spec fn launch_program(config: Document) -> Option<Seq<char>> {
    match config.field("executable"@) {
        Some(e) => e.text(),
        None => None,
    }
}

/// The file name of a program path: what follows its last separator, be it a
/// slash or a backslash.
pub open spec fn program_file(path: Seq<char>) -> Seq<char> {
    last_segment(forward_slashes(path))
}

/// `names` with `name` added at the end, unless it is empty or there already.
pub open spec fn with_name(names: Seq<Seq<char>>, name: Seq<char>) -> Seq<Seq<char>> {
    if name.len() > 0 && !names.contains(name) {
        names.push(name)
    } else {
        names
    }
}

/// The file names of the programs of the first `n` launch configurations,
/// each once, in the order in which they first occur.
pub open spec fn gathered(configs: Seq<Member>, n: int) -> Seq<Seq<char>>
    decreases n,
{
    if n <= 0 {
        Seq::empty()
    } else {
        let before = gathered(configs, n - 1);
        match launch_program(configs[n - 1].value) {
            Some(path) => with_name(before, program_file(path)),
            None => before,
        }
    }
}

/// The candidate executables of a catalog entry.
pub open spec fn entry_executables(entry: Document) -> Seq<Seq<char>> {
    gathered(launch_configs(entry), launch_configs(entry).len() as int)
}

/// `index` after a catalog entry: with the entry under its identifier where
/// it has one and a name that is not empty, unchanged otherwise.
pub open spec fn with_entry(index: Map<Seq<char>, EntryView>, entry: Document) -> Map<
    Seq<char>,
    EntryView,
> {
    match entry_id(entry) {
        Some(id) => if entry_name(entry).len() > 0 {
            index.insert(
                id,
                EntryView { name: entry_name(entry), executables: entry_executables(entry) },
            )
        } else {
            index
        },
        None => index,
    }
}

/// The index of the first `n` catalog entries. A later entry replaces an
/// earlier one with the same identifier.
pub open spec fn indexed(entries: Seq<Document>, n: int) -> Map<Seq<char>, EntryView>
    decreases n,
{
    if n <= 0 {
        Map::empty()
    } else {
        with_entry(indexed(entries, n - 1), entries[n - 1])
    }
}

/// The index that a decoded catalog gives: that of the array at `entries`,
/// empty where there is none.
pub open spec fn catalog_index(document: Document) -> Map<Seq<char>, EntryView> {
    match document.field("entries"@) {
        Some(Document::Array(entries)) => indexed(entries@, entries@.len() as int),
        _ => Map::empty(),
    }
}

/// One game of the index.
#[derive(Debug)]
pub struct IndexEntry {
    pub id: String,
    pub name: String,
    pub executables: Vec<String>,
}

impl View for IndexEntry {
    type V = EntryView;

    open spec fn view(&self) -> EntryView {
        EntryView { name: self.name@, executables: texts(self.executables@) }
    }
}

/// The map that the first `n` of `entries` stand for.
pub open spec fn mapped(entries: Seq<IndexEntry>, n: int) -> Map<Seq<char>, EntryView>
    decreases n,
{
    if n <= 0 {
        Map::empty()
    } else {
        mapped(entries, n - 1).insert(entries[n - 1].id@, entries[n - 1]@)
    }
}

/// Whether no identifier occurs twice in `entries`.
pub open spec fn distinct_ids(entries: Seq<IndexEntry>) -> bool {
    forall|i: int, j: int|
        0 <= i < j < entries.len() ==> (#[trigger] entries[i]).id@ != (#[trigger] entries[j]).id@
}

proof fn lemma_mapped_prefix(a: Seq<IndexEntry>, b: Seq<IndexEntry>, n: int)
    requires
        n <= a.len(),
        n <= b.len(),
        forall|i: int| 0 <= i < n ==> a[i] == b[i],
    ensures
        mapped(a, n) == mapped(b, n),
    decreases n,
{
    if n > 0 {
        lemma_mapped_prefix(a, b, n - 1);
    }
}

proof fn lemma_mapped_absent(entries: Seq<IndexEntry>, n: int, id: Seq<char>)
    requires
        n <= entries.len(),
        forall|i: int| 0 <= i < n ==> (#[trigger] entries[i]).id@ != id,
    ensures
        !mapped(entries, n).dom().contains(id),
    decreases n,
{
    if n > 0 {
        lemma_mapped_absent(entries, n - 1, id);
    }
}

proof fn lemma_mapped_at(entries: Seq<IndexEntry>, n: int, i: int)
    requires
        distinct_ids(entries),
        0 <= i < n <= entries.len(),
    ensures
        mapped(entries, n).dom().contains(entries[i].id@),
        mapped(entries, n)[entries[i].id@] == entries[i]@,
    decreases n,
{
    if i < n - 1 {
        lemma_mapped_at(entries, n - 1, i);
    }
}

proof fn lemma_mapped_replace(a: Seq<IndexEntry>, b: Seq<IndexEntry>, n: int, j: int)
    requires
        distinct_ids(a),
        a.len() == b.len(),
        0 <= j < a.len(),
        n <= a.len(),
        a[j].id@ == b[j].id@,
        forall|i: int| 0 <= i < a.len() && i != j ==> a[i] == b[i],
    ensures
        j < n ==> mapped(b, n) == mapped(a, n).insert(b[j].id@, b[j]@),
        j >= n ==> mapped(b, n) == mapped(a, n),
    decreases n,
{
    if n > 0 {
        lemma_mapped_replace(a, b, n - 1, j);
        if j < n - 1 {
            assert(a[j].id@ != a[n - 1].id@);
            assert(mapped(b, n) =~= mapped(a, n).insert(b[j].id@, b[j]@));
        } else if j == n - 1 {
            assert(mapped(b, n) =~= mapped(a, n).insert(b[j].id@, b[j]@));
        }
    }
}

/// The library index: a map from game identifier to display name and
/// candidate executables.
pub struct LibraryIndex {
    entries: Vec<IndexEntry>,
}

impl View for LibraryIndex {
    type V = Map<Seq<char>, EntryView>;

    closed spec fn view(&self) -> Map<Seq<char>, EntryView> {
        mapped(self.entries@, self.entries@.len() as int)
    }
}

impl LibraryIndex {
    #[verifier::type_invariant]
    spec fn inv(self) -> bool {
        distinct_ids(self.entries@)
    }

    /// An index without games.
    pub fn new() -> (r: LibraryIndex)
        ensures
            r@ == Map::<Seq<char>, EntryView>::empty(),
    {
        LibraryIndex { entries: Vec::new() }
    }

    fn position(&self, id: &str) -> (r: Option<usize>)
        ensures
            match r {
                Some(i) => i < self.entries.len() && self.entries@[i as int].id@ == id@,
                None => forall|i: int|
                    0 <= i < self.entries.len() ==> (#[trigger] self.entries@[i]).id@ != id@,
            },
    {
        let mut i: usize = 0;
        while i < self.entries.len()
            invariant
                i <= self.entries.len(),
                forall|j: int| 0 <= j < i ==> (#[trigger] self.entries@[j]).id@ != id@,
            decreases self.entries.len() - i,
        {
            if same_text(self.entries[i].id.as_str(), id) {
                return Some(i);
            }
            i += 1;
        }
        None
    }

    /// What the index holds for the game `id`.
    pub fn get(&self, id: &str) -> (r: Option<&IndexEntry>)
        ensures
            match r {
                Some(e) => self@.dom().contains(id@) && self@[id@] == e@ && e.id@ == id@,
                None => !self@.dom().contains(id@),
            },
    {
        proof {
            use_type_invariant(self);
        }
        match self.position(id) {
            Some(i) => {
                proof {
                    lemma_mapped_at(self.entries@, self.entries@.len() as int, i as int);
                }
                Some(&self.entries[i])
            },
            None => {
                proof {
                    lemma_mapped_absent(self.entries@, self.entries@.len() as int, id@);
                }
                None
            },
        }
    }

    /// Puts a game into the index, in place of what the index held for `id`.
    pub fn insert(&mut self, id: String, name: String, executables: Vec<String>)
        ensures
            final(self)@ == old(self)@.insert(
                id@,
                EntryView { name: name@, executables: texts(executables@) },
            ),
    {
        proof {
            use_type_invariant(&*self);
        }
        let ghost before = self.entries@;
        let found = self.position(id.as_str());
        let entry = IndexEntry { id, name, executables };
        let mut taken = LibraryIndex { entries: Vec::new() };
        std::mem::swap(self, &mut taken);
        let mut entries = taken.entries;
        match found {
            Some(i) => {
                entries.set(i, entry);
                proof {
                    lemma_mapped_replace(before, entries@, before.len() as int, i as int);
                }
            },
            None => {
                entries.push(entry);
                proof {
                    lemma_mapped_prefix(before, entries@, before.len() as int);
                }
            },
        }
        *self = LibraryIndex { entries };
    }

    /// A copy of the index.
    pub fn duplicate(&self) -> (r: LibraryIndex)
        ensures
            r@ == self@,
    {
        proof {
            use_type_invariant(self);
        }
        let mut entries: Vec<IndexEntry> = Vec::new();
        let mut i: usize = 0;
        while i < self.entries.len()
            invariant
                i <= self.entries.len(),
                entries.len() == i,
                forall|j: int|
                    0 <= j < i ==> (#[trigger] entries@[j]).id@ == self.entries@[j].id@
                        && entries@[j]@ == self.entries@[j]@,
            decreases self.entries.len() - i,
        {
            let e = &self.entries[i];
            entries.push(
                IndexEntry {
                    id: e.id.clone(),
                    name: e.name.clone(),
                    executables: copy_texts(&e.executables),
                },
            );
            i += 1;
        }
        proof {
            lemma_mapped_same(self.entries@, entries@, entries@.len() as int);
        }
        LibraryIndex { entries }
    }

    /// The number of games in the index.
    pub fn len(&self) -> (r: usize)
        ensures
            r == self@.dom().len(),
            self@.dom().finite(),
    {
        proof {
            use_type_invariant(self);
            lemma_mapped_len(self.entries@, self.entries@.len() as int);
        }
        self.entries.len()
    }
}

proof fn lemma_mapped_same(a: Seq<IndexEntry>, b: Seq<IndexEntry>, n: int)
    requires
        n <= a.len(),
        n <= b.len(),
        forall|i: int| 0 <= i < n ==> (#[trigger] b[i]).id@ == a[i].id@ && b[i]@ == a[i]@,
    ensures
        mapped(a, n) == mapped(b, n),
    decreases n,
{
    if n > 0 {
        lemma_mapped_same(a, b, n - 1);
        assert(b[n - 1].id@ == a[n - 1].id@);
    }
}

proof fn lemma_mapped_len(entries: Seq<IndexEntry>, n: int)
    requires
        distinct_ids(entries),
        0 <= n <= entries.len(),
    ensures
        mapped(entries, n).dom().finite(),
        mapped(entries, n).dom().len() == n,
    decreases n,
{
    if n > 0 {
        lemma_mapped_len(entries, n - 1);
        assert forall|i: int| 0 <= i < n - 1 implies (#[trigger] entries[i]).id@ != entries[n
            - 1].id@ by {}
        lemma_mapped_absent(entries, n - 1, entries[n - 1].id@);
    }
}


/// The display name of a catalog entry, if it has one that is not empty.
pub fn name_of_entry(entry: &Document) -> (r: Option<String>)
    ensures
        match r {
            Some(name) => name@ == entry_name(*entry) && name@.len() > 0,
            None => entry_name(*entry).len() == 0,
        },
{
    match entry.get("common") {
        Some(common) => match common.get("name") {
            Some(name) => match name.as_text() {
                Some(s) => if s.as_str().is_empty() {
                    None
                } else {
                    Some(s.clone())
                },
                None => None,
            },
            None => None,
        },
        None => None,
    }
}

/// The candidate executables of a catalog entry: the file names of the
/// programs of its launch configurations, each once, in the order in which
/// they first occur.
pub fn programs_of_entry(entry: &Document) -> (r: Vec<String>)
    ensures
        texts(r@) == entry_executables(*entry),
{
    let mut names: Vec<String> = Vec::new();
    assert(texts(names@) =~= Seq::<Seq<char>>::empty());
    match entry.get("config") {
        Some(config) => match config.get("launch") {
            Some(launch) => match launch {
                Document::Object(configs) => {
                    let mut i: usize = 0;
                    while i < configs.len()
                        invariant
                            i <= configs.len(),
                            texts(names@) == gathered(configs@, i as int),
                        decreases configs.len() - i,
                    {
                        match configs[i].value.get("executable") {
                            Some(program) => match program.as_text() {
                                Some(path) => {
                                    let file = file_name_of(&slashes_forward(path.as_str()));
                                    let name = text_of(&file);
                                    if file.len() > 0 && !contains_text(&names, name.as_str()) {
                                        let ghost before = texts(names@);
                                        names.push(name);
                                        assert(texts(names@) =~= before.push(name@));
                                    }
                                },
                                None => {},
                            },
                            None => {},
                        }
                        i += 1;
                    }
                },
                _ => {},
            },
            None => {},
        },
        None => {},
    }
    names
}

/// Builds the library index of a decoded catalog.
pub fn build_index(document: &Document) -> (r: LibraryIndex)
    ensures
        r@ == catalog_index(*document),
{
    let mut index = LibraryIndex::new();
    match document.get("entries") {
        Some(list) => match list {
            Document::Array(entries) => {
                let mut i: usize = 0;
                while i < entries.len()
                    invariant
                        i <= entries.len(),
                        index@ == indexed(entries@, i as int),
                    decreases entries.len() - i,
                {
                    let entry = &entries[i];
                    match entry.get("appid") {
                        Some(id) => match id {
                            Document::Number(n) => match name_of_entry(entry) {
                                Some(name) => {
                                    index.insert(n.clone(), name, programs_of_entry(entry));
                                },
                                None => {},
                            },
                            _ => {},
                        },
                        None => {},
                    }
                    i += 1;
                }
            },
            _ => {},
        },
        None => {},
    }
    index
}

/// Whether no text occurs twice in `names`.
pub open spec fn each_once(names: Seq<Seq<char>>) -> bool {
    forall|i: int, j: int| 0 <= i < j < names.len() ==> names[i] != names[j]
}

/// Whether `entry` is fit for the index: its name is not empty, and its
/// executables are file names, none empty, none with a separator, none
/// twice.
pub open spec fn sound_entry(entry: EntryView) -> bool {
    &&& entry.name.len() > 0
    &&& each_once(entry.executables)
    &&& forall|i: int|
        0 <= i < entry.executables.len() ==> (#[trigger] entry.executables[i]).len() > 0
            && slash_free(entry.executables[i])
}

proof fn lemma_gathered(configs: Seq<Member>, n: int)
    ensures
        each_once(gathered(configs, n)),
        forall|i: int|
            0 <= i < gathered(configs, n).len() ==> (#[trigger] gathered(configs, n)[i]).len() > 0
                && slash_free(gathered(configs, n)[i]),
    decreases n,
{
    if n > 0 {
        lemma_gathered(configs, n - 1);
        match launch_program(configs[n - 1].value) {
            Some(path) => {
                lemma_last_segment(forward_slashes(path));
            },
            None => {},
        }
    }
}

proof fn lemma_indexed(entries: Seq<Document>, n: int, id: Seq<char>)
    requires
        indexed(entries, n).dom().contains(id),
    ensures
        sound_entry(indexed(entries, n)[id]),
    decreases n,
{
    if n > 0 {
        let entry = entries[n - 1];
        lemma_gathered(launch_configs(entry), launch_configs(entry).len() as int);
        if indexed(entries, n - 1).dom().contains(id) {
            lemma_indexed(entries, n - 1, id);
        }
    }
}

/// Every game of a catalog's index has a name that is not empty, and
/// executables that are file names, none empty, none with a separator, none
/// twice.
pub proof fn lemma_catalog_index_sound(document: Document, id: Seq<char>)
    requires
        catalog_index(document).dom().contains(id),
    ensures
        sound_entry(catalog_index(document)[id]),
{
    match document.field("entries"@) {
        Some(Document::Array(entries)) => {
            lemma_indexed(entries@, entries@.len() as int, id);
        },
        _ => {},
    }
}

} // verus!
