//! The cache of the library index.
//!
//! Decoding the catalog is costly, so the index is kept together with the
//! modification time that the catalog file had when it was decoded. The
//! cached index is handed out again if and only if the file's modification
//! time still equals that time. Whoever owns the cache guards it with a lock
//! that it holds from the lookup to the end of the rebuild.

use vstd::prelude::*;
use crate::catalog::build_index;
use crate::catalog::catalog_index;
use crate::catalog::Document;
use crate::catalog::EntryView;
use crate::catalog::LibraryIndex;
use crate::time::Timestamp;

verus! {

/// What the disk says of the catalog file: that there is none, or its
/// modification time, where that can be read.
#[derive(Clone, Copy, PartialEq, Eq, Structural, Debug)]
pub enum CatalogFile {
    Missing,
    Present(Option<Timestamp>),
}

/// A cache as contracts see it: whether it holds an index, the modification
/// time that goes with it, and the index.
pub struct CacheView {
    pub filled: bool,
    pub stamp: Option<Timestamp>,
    pub index: Map<Seq<char>, EntryView>,
}

/// What a lookup comes to: an index that is ready, or the need to decode
/// the catalog.
pub enum Lookup {
    Ready(LibraryIndex),
    Decode,
}

/// What a lookup comes to, as contracts see it.
pub enum LookupView {
    Ready(Map<Seq<char>, EntryView>),
    Decode,
}

impl View for Lookup {
    type V = LookupView;

    open spec fn view(&self) -> LookupView {
        match *self {
            Lookup::Ready(index) => LookupView::Ready(index@),
            Lookup::Decode => LookupView::Decode,
        }
    }
}

/// A cache that holds nothing.
pub open spec fn vacant() -> CacheView {
    CacheView { filled: false, stamp: None, index: Map::empty() }
}

/// A cache that holds `index`, decoded when the catalog file had the
/// modification time `stamp`.
pub open spec fn holding(stamp: Option<Timestamp>, index: Map<Seq<char>, EntryView>) -> CacheView {
    CacheView { filled: true, stamp, index }
}

/// Whether the cached index may be used for a catalog file with the
/// modification time `current`: the cache holds an index, both times are
/// known, and they are equal.
pub open spec fn fresh(cache: CacheView, current: Option<Timestamp>) -> bool {
    cache.filled && cache.stamp is Some && current is Some && cache.stamp == current
}

/// What a lookup comes to: the empty index where there is no catalog file,
/// the cached index where it is fresh, and a decoding otherwise.
pub open spec fn lookup_of(cache: CacheView, file: CatalogFile) -> LookupView {
    match file {
        CatalogFile::Missing => LookupView::Ready(Map::empty()),
        CatalogFile::Present(current) => if fresh(cache, current) {
            LookupView::Ready(cache.index)
        } else {
            LookupView::Decode
        },
    }
}

/// One whole lookup against a catalog file whose present content decodes to
/// `document`: the cache afterwards, the index that is handed out, and
/// whether the catalog was decoded.
pub open spec fn served(cache: CacheView, file: CatalogFile, document: Document) -> (
    CacheView,
    Map<Seq<char>, EntryView>,
    bool,
) {
    match lookup_of(cache, file) {
        LookupView::Ready(index) => (cache, index, false),
        LookupView::Decode => {
            let index = catalog_index(document);
            let stamp = match file {
                CatalogFile::Present(current) => current,
                CatalogFile::Missing => None,
            };
            (holding(stamp, index), index, true)
        },
    }
}

/// The cache of the library index.
pub struct IndexCache {
    held: Option<(Option<Timestamp>, LibraryIndex)>,
}

impl View for IndexCache {
    type V = CacheView;

    closed spec fn view(&self) -> CacheView {
        match self.held {
            Some((stamp, index)) => holding(stamp, index@),
            None => vacant(),
        }
    }
}

impl IndexCache {
    /// A cache that holds nothing.
    pub fn new() -> (r: IndexCache)
        ensures
            r@ == vacant(),
    {
        IndexCache { held: None }
    }

    /// Looks the index up for the catalog file as it is now. The cache stays
    /// as it is.
    pub fn lookup(&self, file: CatalogFile) -> (r: Lookup)
        ensures
            r@ == lookup_of(self@, file),
    {
        match file {
            CatalogFile::Missing => Lookup::Ready(LibraryIndex::new()),
            CatalogFile::Present(current) => match &self.held {
                Some((stamp, index)) => match (stamp, current) {
                    (Some(cached), Some(now)) => if cached.secs == now.secs && cached.nanos
                        == now.nanos {
                        Lookup::Ready(index.duplicate())
                    } else {
                        Lookup::Decode
                    },
                    _ => Lookup::Decode,
                },
                None => Lookup::Decode,
            },
        }
    }

    /// Builds the index of the freshly decoded catalog, keeps it with the
    /// modification time that the catalog file has, and hands it out.
    pub fn rebuild(&mut self, modified: Option<Timestamp>, document: &Document) -> (r: LibraryIndex)
        ensures
            r@ == catalog_index(*document),
            final(self)@ == holding(modified, catalog_index(*document)),
    {
        let index = build_index(document);
        let r = index.duplicate();
        self.held = Some((modified, index));
        r
    }
}

/// Cache hit. Two lookups in a row against a catalog file with the same
/// modification time hand out the same index, and the second one does not
/// decode, whatever the cache held before and whatever the file decodes to.
pub proof fn lemma_cache_hit(
    cache: CacheView,
    modified: Timestamp,
    first: Document,
    second: Document,
)
    ensures
        ({
            let file = CatalogFile::Present(Some(modified));
            let (once, index, decoded) = served(cache, file, first);
            let (twice, again, decoded_again) = served(once, file, second);
            &&& again == index
            &&& !decoded_again
            &&& twice == once
        }),
{
}

/// Invalidation. Once the catalog file's modification time has changed, be
/// its content the same or not, the next lookup decodes the catalog, and
/// the one after it does not.
pub proof fn lemma_cache_invalidation(
    cache: CacheView,
    before: Timestamp,
    after: Timestamp,
    document: Document,
)
    requires
        before != after,
    ensures
        ({
            let (old, index, first) = served(cache, CatalogFile::Present(Some(before)), document);
            let (new, next, decoded) = served(old, CatalogFile::Present(Some(after)), document);
            let (last, again, decoded_again) = served(
                new,
                CatalogFile::Present(Some(after)),
                document,
            );
            &&& decoded
            &&& next == catalog_index(document)
            &&& !decoded_again
            &&& again == next
        }),
{
}

/// A catalog file whose modification time cannot be read is decoded at
/// every lookup, and a missing one never: it gives the empty index and
/// leaves the cache alone.
pub proof fn lemma_cache_edges(cache: CacheView, document: Document)
    ensures
        served(cache, CatalogFile::Present(None), document).2,
        served(cache, CatalogFile::Missing, document) == (
            cache,
            Map::<Seq<char>, EntryView>::empty(),
            false,
        ),
{
}

} // verus!
