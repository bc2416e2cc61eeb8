use m3u_viewer::cache::{cache_file_name, thumbnail_url, ThumbnailCache};
use m3u_viewer::catalog::{load_with_pending, pending_set, VideoCatalog, VideoEntry};
use m3u_viewer::parse::parse_playlist;
use m3u_viewer::playlist::{generate_m3u8, playlist_text};
use m3u_viewer::resolve::resolve;
use m3u_viewer::sched::{DownloadScheduler, DEFAULT_CONCURRENCY_CAP};
use m3u_viewer::search::SearchIndex;
use m3u_viewer::select::SelectionSet;

fn entry(title: &str, url: &str) -> VideoEntry {
    VideoEntry {
        title: title.to_string(),
        url: url.to_string(),
        id: resolve(url),
    }
}

fn catalog_of(items: &[(&str, &str)]) -> VideoCatalog {
    VideoCatalog {
        entries: items.iter().map(|(t, u)| entry(t, u)).collect(),
    }
}

#[test]
fn parses_single_entry_end_to_end() {
    let text = "#EXTM3U\n#EXTINF:-1, Song A\nhttps://youtu.be/abc123\n";
    let entries = parse_playlist(text);
    assert_eq!(entries.len(), 1);
    assert_eq!(entries[0].title, "Song A");
    assert_eq!(entries[0].url, "https://youtu.be/abc123");
    let catalog = VideoCatalog::load(text);
    assert_eq!(catalog.len(), 1);
    assert_eq!(catalog.get(0).id, "abc123");
}

#[test]
fn parses_pairs_in_input_order() {
    let text = "#EXTM3U\n#EXTINF:-1, First\nhttps://a.example/one\n#EXTINF:-1, Second\nhttps://a.example/two\n#EXTINF:-1, Third\nhttps://a.example/three\n";
    let entries = parse_playlist(text);
    assert_eq!(entries.len(), 3);
    assert_eq!(entries[0].title, "First");
    assert_eq!(entries[1].title, "Second");
    assert_eq!(entries[2].title, "Third");
    assert_eq!(entries[0].url, "https://a.example/one");
    assert_eq!(entries[2].url, "https://a.example/three");
}

#[test]
fn parse_skips_comments_and_blank_lines() {
    let text = "#EXTM3U\n# a comment\n\n   \n#EXTINF:-1, Kept\nhttps://a.example/v\n";
    let entries = parse_playlist(text);
    assert_eq!(entries.len(), 1);
    assert_eq!(entries[0].title, "Kept");
}

#[test]
fn parse_title_falls_back_to_last_path_segment() {
    let entries = parse_playlist("https://a.example/dir/clip.mp4\n");
    assert_eq!(entries.len(), 1);
    assert_eq!(entries[0].title, "clip.mp4");
    let entries = parse_playlist("plainname\n");
    assert_eq!(entries.len(), 1);
    assert_eq!(entries[0].title, "plainname");
}

#[test]
fn parse_trims_title_and_strips_crlf() {
    let text = "#EXTINF:-1,   Padded Title  \r\nhttps://a.example/v\r\n";
    let entries = parse_playlist(text);
    assert_eq!(entries.len(), 1);
    assert_eq!(entries[0].title, "Padded Title");
    assert_eq!(entries[0].url, "https://a.example/v");
}

#[test]
fn parse_marker_without_comma_keeps_pending_title() {
    let text = "#EXTINF:-1, Kept\n#EXTINF bad line\nhttps://a.example/v\n";
    let entries = parse_playlist(text);
    assert_eq!(entries.len(), 1);
    assert_eq!(entries[0].title, "Kept");
}

#[test]
fn parse_empty_text_yields_no_entries() {
    assert_eq!(parse_playlist("").len(), 0);
    assert_eq!(VideoCatalog::load("").len(), 0);
}

#[test]
fn resolve_extracts_short_link_id() {
    assert_eq!(resolve("https://youtu.be/abc123"), "abc123");
    assert_eq!(resolve("https://youtu.be/dQw4w9WgXcQ?t=42"), "dQw4w9WgXcQ");
}

#[test]
fn resolve_extracts_embed_and_v_and_watch_ids() {
    assert_eq!(resolve("https://www.youtube.com/embed/xyz789"), "xyz789");
    assert_eq!(resolve("https://www.youtube.com/v/id0/extra"), "id0");
    assert_eq!(resolve("https://www.youtube.com/watch?v=hnZkREIOkX4"), "hnZkREIOkX4");
    assert_eq!(
        resolve("https://www.youtube.com/watch?v=9YOpBlxxAqs&list=PL1"),
        "9YOpBlxxAqs"
    );
}

#[test]
fn resolve_extracts_share_form_id() {
    assert_eq!(
        resolve("https://www.youtube.com/watch?list=PL1&v=shared01"),
        "shared01"
    );
}

#[test]
fn resolve_unrecognized_url_gives_md5_hex() {
    let id = resolve("https://example.com/x.mp4");
    assert_eq!(id.len(), 32);
    assert!(id.chars().all(|c| c.is_ascii_hexdigit() && !c.is_ascii_uppercase()));
    let expected = format!("{:x}", md5::compute("https://example.com/x.mp4".as_bytes()));
    assert_eq!(id, expected);
}

#[test]
fn resolve_is_stable_across_calls() {
    let u = "https://example.com/x.mp4";
    let first = resolve(u);
    for _ in 0..3 {
        assert_eq!(resolve(u), first);
    }
}

#[test]
fn resolve_empty_token_falls_back_to_digest() {
    let id = resolve("https://youtu.be/");
    assert_eq!(id.len(), 32);
}

#[test]
fn cache_records_and_probes_identifiers() {
    let mut cache = ThumbnailCache::new();
    assert!(!cache.is_cached(&"abc123".to_string()));
    cache.record("abc123".to_string());
    assert!(cache.is_cached(&"abc123".to_string()));
    assert!(!cache.is_cached(&"other".to_string()));
}

#[test]
fn cache_paths_and_urls_are_deterministic() {
    assert_eq!(cache_file_name("abc123"), "cache_m3u/abc123.jpg");
    assert_eq!(
        thumbnail_url("abc123"),
        "https://img.youtube.com/vi/abc123/mqdefault.jpg"
    );
}

#[test]
fn cached_identifier_never_pending() {
    let cache = ThumbnailCache::from_ids(vec!["abc123".to_string()]);
    let text = "#EXTM3U\n#EXTINF:-1, Song A\nhttps://youtu.be/abc123\n#EXTINF:-1, Song B\nhttps://youtu.be/zzz999\n";
    let (catalog, pending) = load_with_pending(text, &cache);
    assert_eq!(catalog.len(), 2);
    assert_eq!(pending, vec!["zzz999".to_string()]);
}

#[test]
fn pending_set_holds_each_missing_identifier_once() {
    let cache = ThumbnailCache::new();
    let text = "#EXTM3U\nhttps://youtu.be/dup1\nhttps://youtu.be/dup1\nhttps://youtu.be/one2\n";
    let catalog = VideoCatalog::load(text);
    assert_eq!(catalog.len(), 3);
    let pending = pending_set(&catalog, &cache);
    assert_eq!(pending, vec!["dup1".to_string(), "one2".to_string()]);
}

#[test]
fn advance_dispatches_cap_and_leaves_rest() {
    let ids: Vec<String> = ["a", "b", "c", "d", "e"].iter().map(|s| s.to_string()).collect();
    let mut sched = DownloadScheduler::new(ids);
    let batch = sched.advance(2);
    assert_eq!(batch, vec!["a".to_string(), "b".to_string()]);
    assert_eq!(sched.pending_count(), 3);
    let batch2 = sched.advance(2);
    assert_eq!(batch2, vec!["c".to_string(), "d".to_string()]);
    let batch3 = sched.advance(2);
    assert_eq!(batch3, vec!["e".to_string()]);
    assert_eq!(sched.pending_count(), 0);
    let batch4 = sched.advance(2);
    assert!(batch4.is_empty());
}

#[test]
fn advance_batches_never_overlap() {
    let ids: Vec<String> = (0..7).map(|i| format!("id{}", i)).collect();
    let mut sched = DownloadScheduler::new(ids);
    let mut seen: Vec<String> = Vec::new();
    loop {
        let batch = sched.advance(DEFAULT_CONCURRENCY_CAP);
        if batch.is_empty() {
            break;
        }
        assert!(batch.len() <= DEFAULT_CONCURRENCY_CAP);
        for id in batch {
            assert!(!seen.contains(&id));
            seen.push(id);
        }
    }
    assert_eq!(seen.len(), 7);
}

#[test]
fn filter_empty_query_returns_all_positions_ascending() {
    let catalog = catalog_of(&[
        ("Alpha", "https://a.example/1"),
        ("Beta", "https://a.example/2"),
        ("Gamma", "https://a.example/3"),
    ]);
    let all = SearchIndex::filter(&catalog, "");
    assert_eq!(all, vec![0, 1, 2]);
}

#[test]
fn filter_unmatched_query_returns_nothing() {
    let catalog = catalog_of(&[("Alpha", "https://a.example/1"), ("Beta", "https://a.example/2")]);
    let none = SearchIndex::filter(&catalog, "zzz");
    assert!(none.is_empty());
}

#[test]
fn filter_is_case_insensitive_substring_match() {
    let catalog = catalog_of(&[
        ("Song A", "https://a.example/1"),
        ("Another SONG here", "https://a.example/2"),
        ("different", "https://a.example/3"),
    ]);
    assert_eq!(SearchIndex::filter(&catalog, "song"), vec![0, 1]);
    assert_eq!(SearchIndex::filter(&catalog, "SoNg"), vec![0, 1]);
    assert_eq!(SearchIndex::filter(&catalog, "different"), vec![2]);
}

#[test]
fn toggle_twice_restores_selection() {
    let mut sel = SelectionSet::new();
    sel.toggle(3);
    sel.toggle(1);
    assert!(sel.is_selected(3));
    assert!(sel.is_selected(1));
    sel.toggle(3);
    sel.toggle(3);
    assert!(sel.is_selected(3));
    sel.toggle(1);
    assert!(!sel.is_selected(1));
    sel.toggle(1);
    assert!(sel.is_selected(1));
}

#[test]
fn clear_empties_selection() {
    let mut sel = SelectionSet::new();
    sel.toggle(0);
    sel.toggle(2);
    assert!(!sel.is_empty());
    sel.clear();
    assert!(sel.is_empty());
    assert!(!sel.is_selected(0));
}

#[test]
fn materialize_returns_entries_in_ascending_position() {
    let catalog = catalog_of(&[
        ("A", "https://a.example/1"),
        ("B", "https://a.example/2"),
        ("C", "https://a.example/3"),
    ]);
    let mut sel = SelectionSet::new();
    sel.toggle(2);
    sel.toggle(0);
    let picked = sel.materialize(&catalog);
    assert_eq!(picked.len(), 2);
    assert_eq!(picked[0].title, "A");
    assert_eq!(picked[1].title, "C");
}

#[test]
fn playlist_text_renders_header_and_pairs() {
    let entries = vec![
        entry("Song A", "https://youtu.be/abc123"),
        entry("Song B", "https://a.example/b.mp4"),
    ];
    let text = playlist_text(&entries);
    assert_eq!(
        text,
        "#EXTM3U\n#EXTINF:-1, Song A\nhttps://youtu.be/abc123\n#EXTINF:-1, Song B\nhttps://a.example/b.mp4\n"
    );
}

#[test]
fn rendered_playlist_parses_back_unchanged() {
    let entries = vec![
        entry("Song A", "https://youtu.be/abc123"),
        entry("B, with comma", "https://a.example/b.mp4"),
    ];
    let text = playlist_text(&entries);
    let reparsed = parse_playlist(&text);
    assert_eq!(reparsed.len(), 2);
    assert_eq!(reparsed[0].title, "Song A");
    assert_eq!(reparsed[0].url, "https://youtu.be/abc123");
    assert_eq!(reparsed[1].title, "B, with comma");
    assert_eq!(reparsed[1].url, "https://a.example/b.mp4");
}

#[test]
fn generate_m3u8_renders_alternating_lines() {
    let output = "https://a.example/one\nTitle One\nhttps://a.example/two\nTitle Two";
    let text = generate_m3u8(output).unwrap();
    assert_eq!(
        text,
        "#EXTM3U\n#EXTINF:-1, Title One\nhttps://a.example/one\n#EXTINF:-1, Title Two\nhttps://a.example/two\n"
    );
}

#[test]
fn generate_m3u8_trims_surrounding_whitespace() {
    let output = "\nhttps://a.example/one\nTitle One\n";
    let text = generate_m3u8(output).unwrap();
    assert_eq!(text, "#EXTM3U\n#EXTINF:-1, Title One\nhttps://a.example/one\n");
}

#[test]
fn generate_m3u8_rejects_odd_line_count() {
    assert!(generate_m3u8("https://a.example/one\nTitle One\nodd").is_none());
    assert!(generate_m3u8("").is_none());
}

#[test]
fn advance_with_zero_cap_dispatches_nothing() {
    let mut sched = DownloadScheduler::new(vec!["a".to_string(), "b".to_string()]);
    let batch = sched.advance(0);
    assert!(batch.is_empty());
    assert_eq!(sched.pending_count(), 2);
}

#[test]
fn filter_on_empty_catalog_returns_nothing() {
    let catalog = VideoCatalog { entries: Vec::new() };
    assert!(SearchIndex::filter(&catalog, "").is_empty());
    assert!(SearchIndex::filter(&catalog, "x").is_empty());
}

#[test]
fn materialize_with_empty_selection_returns_nothing() {
    let catalog = catalog_of(&[("A", "https://a.example/1")]);
    let sel = SelectionSet::new();
    assert!(sel.materialize(&catalog).is_empty());
}

#[test]
fn record_is_idempotent_for_probing() {
    let mut cache = ThumbnailCache::new();
    cache.record("abc123".to_string());
    cache.record("abc123".to_string());
    assert!(cache.is_cached(&"abc123".to_string()));
    assert!(!cache.is_cached(&"abc12".to_string()));
}
