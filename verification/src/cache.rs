//! Bookkeeping for the persistent thumbnail cache.
//!
//! On disk the cache is one file per identifier under a fixed cache
//! directory; the presence of a file means "no further fetch of that
//! identifier is needed". This module keeps the in-memory record of
//! which identifiers have a stored thumbnail, and derives the
//! deterministic file path and remote endpoint URL for an identifier.
//! Probing, reading and writing the files themselves is the caller's
//! side: it builds the record from the files it finds and records each
//! successful write.

use vstd::prelude::*;
use vstd::string::StringExecFns;
use crate::text::str_views;

verus! {

/// The set of identifiers a sequence of id strings holds.
pub open spec fn ids_set(ids: Seq<String>) -> Set<Seq<char>> {
    Set::new(|x: Seq<char>| exists|j: int| 0 <= j < ids.len() && ids[j]@ == x)
}

/// The record of which identifiers have a stored thumbnail. Its view is
/// the set of cached identifiers.
pub struct ThumbnailCache {
    ids: Vec<String>,
}

impl View for ThumbnailCache {
    type V = Set<Seq<char>>;

    closed spec fn view(&self) -> Set<Seq<char>> {
        ids_set(self.ids@)
    }
}

impl ThumbnailCache {
    /// An empty record: no identifier cached yet.
    pub fn new() -> (r: ThumbnailCache)
        ensures
            r@ == Set::<Seq<char>>::empty(),
    {
        let r = ThumbnailCache { ids: Vec::new() };
        proof {
            assert(r@ =~= Set::<Seq<char>>::empty());
        }
        r
    }

    /// The record of exactly the given identifiers, as read off the
    /// cache directory's files.
    pub fn from_ids(ids: Vec<String>) -> (r: ThumbnailCache)
        ensures
            r@ == ids_set(ids@),
    {
        ThumbnailCache { ids }
    }

    /// Whether `id` has a cached thumbnail.
    pub fn is_cached(&self, id: &String) -> (r: bool)
        ensures
            r == self@.contains(id@),
    {
        let n = self.ids.len();
        let mut i: usize = 0;
        while i < n
            invariant
                i <= n == self.ids@.len(),
                forall|j: int| 0 <= j < i ==> self.ids@[j]@ != id@,
            decreases n - i,
        {
            if self.ids[i] == *id {
                return true;
            }
            i += 1;
        }
        proof {
            if self@.contains(id@) {
                let j = choose|j: int| 0 <= j < self.ids@.len() && self.ids@[j]@ == id@;
                assert(self.ids@[j]@ != id@);
            }
        }
        false
    }

    /// Records that `id` now has a stored thumbnail, after a successful
    /// write of its cache file.
    pub fn record(&mut self, id: String)
        ensures
            final(self)@ == old(self)@.insert(id@),
    {
        let ghost prev = self.ids@;
        let ghost idv = id@;
        self.ids.push(id);
        proof {
            assert forall|x: Seq<char>| final(self)@.contains(x) implies old(self)@.insert(
                idv,
            ).contains(x) by {
                let j = choose|j: int| 0 <= j < self.ids@.len() && self.ids@[j]@ == x;
                if j < prev.len() {
                    assert(prev[j]@ == x);
                } else {
                    assert(x == idv);
                }
            }
            assert forall|x: Seq<char>|
                old(self)@.insert(idv).contains(x) implies final(self)@.contains(x) by {
                if x == idv {
                    assert(self.ids@[prev.len() as int]@ == x);
                } else {
                    let j = choose|j: int| 0 <= j < prev.len() && prev[j]@ == x;
                    assert(self.ids@[j]@ == x);
                }
            }
            assert(final(self)@ =~= old(self)@.insert(idv));
        }
    }
}

/// The cache file path of an identifier: the fixed cache directory, the
/// identifier, and the fixed image extension.
pub fn cache_file_name(id: &str) -> (r: String)
    ensures
        r@ == "cache_m3u/"@ + id@ + ".jpg"@,
{
    let mut s = String::from_str("cache_m3u/");
    s.append(id);
    s.append(".jpg");
    s
}

/// The remote thumbnail endpoint URL for an identifier.
pub fn thumbnail_url(id: &str) -> (r: String)
    ensures
        r@ == "https://img.youtube.com/vi/"@ + id@ + "/mqdefault.jpg"@,
{
    let mut s = String::from_str("https://img.youtube.com/vi/");
    s.append(id);
    s.append("/mqdefault.jpg");
    s
}

} // verus!
