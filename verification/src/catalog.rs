//! The video catalog: the ordered in-memory list of playlist entries
//! for the currently open playlist, each carrying its resolved
//! identifier, and the pending set of identifiers that still lack a
//! cached thumbnail.
//!
//! A catalog is built fresh from playlist text and fully replaces any
//! previous one. Duplicate URLs are permitted and preserved as distinct
//! positions; the pending set holds each missing identifier once, in
//! the order of its first appearance.

use vstd::prelude::*;
use crate::cache::ThumbnailCache;
use crate::parse::{entry_views, parse_playlist, parse_text};
use crate::resolve::{id_of, resolve};
use crate::text::str_views;

verus! {

/// One catalog entry: display title, source URL and the identifier the
/// resolver derived from the URL.
pub struct VideoEntry {
    pub title: String,
    pub url: String,
    pub id: String,
}

/// The mathematical view of a catalog entry.
pub struct EntryView {
    pub title: Seq<char>,
    pub url: Seq<char>,
    pub id: Seq<char>,
}

impl View for VideoEntry {
    type V = EntryView;

    open spec fn view(&self) -> EntryView {
        EntryView { title: self.title@, url: self.url@, id: self.id@ }
    }
}

impl Clone for VideoEntry {
    /// Cloning preserves the entry's view.
    fn clone(&self) -> (r: Self)
        ensures
            r@ == self@,
    {
        VideoEntry { title: self.title.clone(), url: self.url.clone(), id: self.id.clone() }
    }
}

/// The views of a sequence of catalog entries.
pub open spec fn entry_seq_view(es: Seq<VideoEntry>) -> Seq<EntryView> {
    es.map_values(|e: VideoEntry| e@)
}

/// What loading playlist text yields: one entry per parsed (title, url)
/// pair, in playlist order, with the identifier the resolver assigns.
pub open spec fn catalog_spec(text: Seq<char>) -> Seq<EntryView> {
    parse_text(text).map_values(
        |p: (Seq<char>, Seq<char>)| EntryView { title: p.0, url: p.1, id: id_of(p.1) },
    )
}

/// The ordered catalog of the currently open playlist.
pub struct VideoCatalog {
    pub entries: Vec<VideoEntry>,
}

impl View for VideoCatalog {
    type V = Seq<EntryView>;

    open spec fn view(&self) -> Seq<EntryView> {
        entry_seq_view(self.entries@)
    }
}

impl VideoCatalog {
    /// Builds a fresh catalog from playlist text. Unreadable or empty
    /// text parses to no entries, so it yields an empty catalog rather
    /// than an error.
    pub fn load(text: &str) -> (c: VideoCatalog)
        ensures
            c@ == catalog_spec(text@),
    {
        let parsed = parse_playlist(text);
        let n = parsed.len();
        let mut entries: Vec<VideoEntry> = Vec::new();
        let mut i: usize = 0;
        while i < n
            invariant
                n == parsed@.len(),
                entry_views(parsed@) == parse_text(text@),
                i <= n,
                entry_seq_view(entries@) == catalog_spec(text@).subrange(0, i as int),
            decreases n - i,
        {
            let title = parsed[i].title.clone();
            let url = parsed[i].url.clone();
            let id = resolve(url.as_str());
            let ghost prev = entries@;
            entries.push(VideoEntry { title, url, id });
            proof {
                assert(entry_views(parsed@)[i as int] == (parsed@[i as int].title@, parsed@[
                    i as int
                ].url@));
                assert(catalog_spec(text@)[i as int] == EntryView {
                    title: parse_text(text@)[i as int].0,
                    url: parse_text(text@)[i as int].1,
                    id: id_of(parse_text(text@)[i as int].1),
                });
                assert(entries@.last()@ == catalog_spec(text@)[i as int]);
                assert(entry_seq_view(prev).len() == prev.len());
                assert(catalog_spec(text@).subrange(0, i as int).len() == i);
                assert(prev.len() == i);
                assert forall|k: int| 0 <= k < i + 1 implies entry_seq_view(entries@)[k]
                    == catalog_spec(text@).subrange(0, i as int + 1)[k] by {
                    if k < i {
                        assert(entries@[k] == prev[k]);
                        assert(entry_seq_view(prev)[k] == prev[k]@);
                        assert(catalog_spec(text@).subrange(0, i as int)[k] == catalog_spec(
                            text@,
                        )[k]);
                    } else {
                        assert(entries@[k] == entries@.last());
                    }
                }
                assert(entry_seq_view(entries@) =~= catalog_spec(text@).subrange(
                    0,
                    i as int + 1,
                ));
            }
            i += 1;
        }
        proof {
            assert(catalog_spec(text@).subrange(0, n as int) =~= catalog_spec(text@));
        }
        VideoCatalog { entries }
    }

    /// The number of entries.
    pub fn len(&self) -> (r: usize)
        ensures
            r == self@.len(),
    {
        self.entries.len()
    }

    /// The entry at position `i`.
    pub fn get(&self, i: usize) -> (r: &VideoEntry)
        requires
            i < self@.len(),
        ensures
            r@ == self@[i as int],
    {
        &self.entries[i]
    }
}

/// The pending identifiers among entries `i..`, appended to `acc`: each
/// entry's identifier, in order of first appearance, when it is neither
/// cached nor collected already.
pub open spec fn pending_rec(
    entries: Seq<EntryView>,
    cached: Set<Seq<char>>,
    i: int,
    acc: Seq<Seq<char>>,
) -> Seq<Seq<char>>
    decreases entries.len() - i,
{
    if i < 0 || i >= entries.len() {
        acc
    } else {
        let id = entries[i].id;
        if !cached.contains(id) && !acc.contains(id) {
            pending_rec(entries, cached, i + 1, acc.push(id))
        } else {
            pending_rec(entries, cached, i + 1, acc)
        }
    }
}

/// The pending set of a catalog against a cache: the identifiers of
/// catalog entries that lack a cached thumbnail, each once, in order of
/// first appearance.
pub open spec fn pending_ids(entries: Seq<EntryView>, cached: Set<Seq<char>>) -> Seq<Seq<char>> {
    pending_rec(entries, cached, 0, Seq::empty())
}

/// Computes the pending set of a catalog against the cache record.
pub fn pending_set(catalog: &VideoCatalog, cache: &ThumbnailCache) -> (p: Vec<String>)
    ensures
        str_views(p@) == pending_ids(catalog@, cache@),
        str_views(p@).no_duplicates(),
{
    let n = catalog.entries.len();
    let mut p: Vec<String> = Vec::new();
    let mut i: usize = 0;
    proof {
        assert(str_views(p@) =~= Seq::<Seq<char>>::empty());
    }
    while i < n
        invariant
            n == catalog.entries@.len(),
            i <= n,
            pending_ids(catalog@, cache@) == pending_rec(
                catalog@,
                cache@,
                i as int,
                str_views(p@),
            ),
            str_views(p@).no_duplicates(),
        decreases n - i,
    {
        let e = &catalog.entries[i];
        proof {
            assert(catalog@[i as int] == catalog.entries@[i as int]@);
        }
        let cached = cache.is_cached(&e.id);
        let already = contains_string(&p, &e.id);
        if !cached && !already {
            let ghost prev = str_views(p@);
            p.push(e.id.clone());
            proof {
                assert(str_views(p@) =~= prev.push(e.id@));
            }
        }
        i += 1;
    }
    p
}

/// Whether some string of `v` has the view of `s`.
pub fn contains_string(v: &Vec<String>, s: &String) -> (r: bool)
    ensures
        r == str_views(v@).contains(s@),
{
    let n = v.len();
    let mut i: usize = 0;
    while i < n
        invariant
            i <= n == v@.len(),
            forall|j: int| 0 <= j < i ==> v@[j]@ != s@,
        decreases n - i,
    {
        if v[i] == *s {
            assert(str_views(v@)[i as int] == s@);
            return true;
        }
        i += 1;
    }
    proof {
        if str_views(v@).contains(s@) {
            let j = choose|j: int| 0 <= j < str_views(v@).len() && str_views(v@)[j] == s@;
            assert(v@[j]@ != s@);
        }
    }
    false
}

/// Loads a catalog and its pending set together: the catalog of the
/// playlist text, and the identifiers in it that the cache record does
/// not cover.
pub fn load_with_pending(text: &str, cache: &ThumbnailCache) -> (r: (VideoCatalog, Vec<String>))
    ensures
        r.0@ == catalog_spec(text@),
        str_views(r.1@) == pending_ids(catalog_spec(text@), cache@),
        str_views(r.1@).no_duplicates(),
{
    let c = VideoCatalog::load(text);
    let p = pending_set(&c, cache);
    (c, p)
}

/// What `pending_rec` collects: exactly what `acc` already holds, plus
/// every identifier of entries `i..` that is not cached.
proof fn lemma_pending_rec_contains(
    entries: Seq<EntryView>,
    cached: Set<Seq<char>>,
    i: int,
    acc: Seq<Seq<char>>,
    x: Seq<char>,
)
    requires
        0 <= i,
    ensures
        pending_rec(entries, cached, i, acc).contains(x) <==> (acc.contains(x) || (
        !cached.contains(x) && exists|j: int| i <= j < entries.len() && entries[j].id == x)),
    decreases entries.len() - i,
{
    if i >= entries.len() {
    } else {
        let id = entries[i].id;
        if !cached.contains(id) && !acc.contains(id) {
            lemma_pending_rec_contains(entries, cached, i + 1, acc.push(id), x);
            assert(acc.push(id).contains(x) <==> (acc.contains(x) || x == id)) by {
                if acc.push(id).contains(x) {
                    let k = choose|k: int|
                        0 <= k < acc.push(id).len() && acc.push(id)[k] == x;
                    if k < acc.len() {
                        assert(acc[k] == x);
                    } else {
                        assert(x == id);
                    }
                }
                if acc.contains(x) {
                    let k = choose|k: int| 0 <= k < acc.len() && acc[k] == x;
                    assert(acc.push(id)[k] == x);
                }
                if x == id {
                    assert(acc.push(id)[acc.len() as int] == x);
                }
            }
            if x == id {
                assert(entries[i].id == x);
            }
            if !cached.contains(x) && (exists|j: int|
                i <= j < entries.len() && entries[j].id == x) && !(exists|j: int|
                i + 1 <= j < entries.len() && entries[j].id == x) {
                let j = choose|j: int| i <= j < entries.len() && entries[j].id == x;
                assert(j == i);
            }
        } else {
            lemma_pending_rec_contains(entries, cached, i + 1, acc, x);
            if !cached.contains(x) && (exists|j: int|
                i <= j < entries.len() && entries[j].id == x) && !(exists|j: int|
                i + 1 <= j < entries.len() && entries[j].id == x) {
                let j = choose|j: int| i <= j < entries.len() && entries[j].id == x;
                assert(j == i);
                assert(x == id);
                assert(acc.contains(x));
            }
        }
    }
}

/// The pending set holds exactly the catalog identifiers that lack a
/// cached thumbnail. In particular an identifier cached before the load
/// never appears in it.
pub proof fn lemma_pending_characterization(
    entries: Seq<EntryView>,
    cached: Set<Seq<char>>,
    x: Seq<char>,
)
    ensures
        pending_ids(entries, cached).contains(x) <==> (!cached.contains(x) && exists|j: int|
            0 <= j < entries.len() && entries[j].id == x),
{
    lemma_pending_rec_contains(entries, cached, 0, Seq::empty(), x);
}

/// An identifier with a cached thumbnail before a catalog load never
/// appears in the resulting pending set.
pub proof fn lemma_cached_never_pending(
    entries: Seq<EntryView>,
    cached: Set<Seq<char>>,
    x: Seq<char>,
)
    requires
        cached.contains(x),
    ensures
        !pending_ids(entries, cached).contains(x),
{
    lemma_pending_characterization(entries, cached, x);
}

} // verus!
