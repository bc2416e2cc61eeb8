//! Rendering playlist text: the header line followed by one
//! metadata+URL pair per entry, and the generator that turns a
//! metadata extractor's output lines into such text.
//!
//! Rendering is the inverse of parsing: well-formed entries render to
//! text that parses back to exactly the same pairs, which is what lets
//! a materialized sub-playlist be handed to a player and reopened.

use vstd::prelude::*;
use vstd::string::StringExecFns;
use vstd::string::StrSliceExecFns;
use crate::catalog::VideoEntry;
use crate::parse::{
    extinf_title, is_extinf, lemma_lines_of_no_newline, lemma_lines_of_split, lines_of,
    parse_lines, parse_text, split_lines, strip_cr, stripped_lines, url_title,
};
use crate::text::{
    chars_vec, is_space, lemma_find_char_is, lemma_trimmed_keeps_nonspace,
    lemma_trimmed_space_prefix, str_views, trim_bounds, trimmed,
};

verus! {

/// The playlist text of one entry: a metadata line carrying the title,
/// then the URL line.
pub open spec fn render_entry(title: Seq<char>, url: Seq<char>) -> Seq<char> {
    "#EXTINF:-1, "@ + title + "\n"@ + url + "\n"@
}

/// The playlist text of the pairs from index `i` on.
pub open spec fn render_from(pairs: Seq<(Seq<char>, Seq<char>)>, i: int) -> Seq<char>
    decreases pairs.len() - i,
{
    if i < 0 || i >= pairs.len() {
        Seq::empty()
    } else {
        render_entry(pairs[i].0, pairs[i].1) + render_from(pairs, i + 1)
    }
}

/// Full playlist text: the header line, then one metadata+URL pair per
/// entry.
pub open spec fn render_playlist(pairs: Seq<(Seq<char>, Seq<char>)>) -> Seq<char> {
    "#EXTM3U\n"@ + render_from(pairs, 0)
}

/// The (title, url) pairs of a sequence of catalog entries.
pub open spec fn pair_views(es: Seq<VideoEntry>) -> Seq<(Seq<char>, Seq<char>)> {
    es.map_values(|e: VideoEntry| (e.title@, e.url@))
}

/// Renders entries as playlist text, exactly as `render_playlist`
/// describes; used to materialize a temporary sub-playlist for
/// playback handoff.
pub fn playlist_text(entries: &Vec<VideoEntry>) -> (r: String)
    ensures
        r@ == render_playlist(pair_views(entries@)),
{
    let ghost pairs = pair_views(entries@);
    let n = entries.len();
    let mut s = String::from_str("#EXTM3U\n");
    let mut i: usize = 0;
    while i < n
        invariant
            n == entries@.len(),
            i <= n,
            pairs == pair_views(entries@),
            s@ + render_from(pairs, i as int) == render_playlist(pairs),
        decreases n - i,
    {
        let ghost sp = s@;
        s.append("#EXTINF:-1, ");
        s.append(entries[i].title.as_str());
        s.append("\n");
        s.append(entries[i].url.as_str());
        s.append("\n");
        proof {
            assert(pairs[i as int] == (entries@[i as int].title@, entries@[i as int].url@));
            assert(s@ =~= sp + render_entry(pairs[i as int].0, pairs[i as int].1));
            assert(render_from(pairs, i as int) == render_entry(
                pairs[i as int].0,
                pairs[i as int].1,
            ) + render_from(pairs, i as int + 1));
            assert((sp + render_entry(pairs[i as int].0, pairs[i as int].1)) + render_from(
                pairs,
                i as int + 1,
            ) =~= sp + render_from(pairs, i as int));
        }
        i += 1;
    }
    proof {
        assert(s@ + render_from(pairs, n as int) =~= s@);
    }
    s
}

/// The (title, url) pairs read off a metadata extractor's output
/// lines: even-indexed lines are URLs, each followed by its title
/// line.
pub open spec fn generated_pairs(ls: Seq<Seq<char>>) -> Seq<(Seq<char>, Seq<char>)> {
    Seq::new((ls.len() / 2) as nat, |k: int| (ls[2 * k + 1], ls[2 * k]))
}

/// What playlist generation yields for the extractor output `out`:
/// nothing when the trimmed output has an odd number of lines (the
/// expected alternation of URL and title is broken), otherwise the
/// rendered playlist of its (title, url) pairs.
pub open spec fn generate_spec(out: Seq<char>) -> Option<Seq<char>> {
    let ls = lines_of(trimmed(out));
    if ls.len() % 2 != 0 {
        None
    } else {
        Some(render_playlist(generated_pairs(ls)))
    }
}

/// Builds playlist text from a metadata extractor's raw output: the
/// trimmed output is split into lines, expected to alternate URL and
/// title; an odd line count yields `None`, never a panic. This is the
/// computing part of playlist generation; running the extractor and
/// writing the file stay with the caller.
pub fn generate_m3u8(output: &str) -> (r: Option<String>)
    ensures
        (match r {
            Some(s) => generate_spec(output@) == Some(s@),
            None => generate_spec(output@) is None,
        }),
{
    let v = chars_vec(output);
    let vn = v.len();
    let (a, b) = trim_bounds(&v, 0, vn);
    proof {
        assert(v@.subrange(0, vn as int) =~= output@);
    }
    let t = output.substring_char(a, b);
    let ls = split_lines(t);
    let ghost lsv = lines_of(trimmed(output@));
    let m = ls.len();
    proof {
        assert(str_views(ls@) == lsv);
        assert(lsv.len() == m);
    }
    if m % 2 != 0 {
        return None;
    }
    let ghost pairs = generated_pairs(lsv);
    let mut s = String::from_str("#EXTM3U\n");
    let half = m / 2;
    let mut k: usize = 0;
    while k < half
        invariant
            m == ls@.len(),
            m % 2 == 0,
            half == m / 2,
            k <= half,
            str_views(ls@) == lsv,
            pairs == generated_pairs(lsv),
            pairs.len() == half,
            s@ + render_from(pairs, k as int) == render_playlist(pairs),
        decreases half - k,
    {
        let ghost sp = s@;
        s.append("#EXTINF:-1, ");
        s.append(ls[2 * k + 1].as_str());
        s.append("\n");
        s.append(ls[2 * k].as_str());
        s.append("\n");
        proof {
            assert(pairs[k as int] == (lsv[2 * (k as int) + 1], lsv[2 * (k as int)]));
            assert(ls@[2 * (k as int) + 1]@ == lsv[2 * (k as int) + 1]);
            assert(ls@[2 * (k as int)]@ == lsv[2 * (k as int)]);
            assert(s@ =~= sp + render_entry(pairs[k as int].0, pairs[k as int].1));
            assert(render_from(pairs, k as int) == render_entry(
                pairs[k as int].0,
                pairs[k as int].1,
            ) + render_from(pairs, k as int + 1));
            assert((sp + render_entry(pairs[k as int].0, pairs[k as int].1)) + render_from(
                pairs,
                k as int + 1,
            ) =~= sp + render_from(pairs, k as int));
        }
        k += 1;
    }
    proof {
        assert(s@ + render_from(pairs, half as int) =~= s@);
    }
    Some(s)
}

/// A (title, url) pair whose rendering survives the parser unchanged:
/// the title is non-empty, free of line breaks and not padded with
/// whitespace; the URL is non-empty, free of line breaks, not a
/// comment line and not all whitespace.
pub open spec fn pair_well_formed(p: (Seq<char>, Seq<char>)) -> bool {
    let t = p.0;
    let u = p.1;
    &&& t.len() > 0
    &&& !is_space(t[0])
    &&& !is_space(t[t.len() - 1])
    &&& (forall|j: int| 0 <= j < t.len() ==> t[j] != '\n' && t[j] != '\r')
    &&& u.len() > 0
    &&& u[0] != '#'
    &&& (exists|j: int| 0 <= j < u.len() && !is_space(u[j]))
    &&& (forall|j: int| 0 <= j < u.len() ==> u[j] != '\n' && u[j] != '\r')
}

/// The metadata line of a well-formed pair parses back to its title:
/// the first comma sits right after the marker, and the title comes
/// out trimmed to itself.
proof fn lemma_meta_line(t: Seq<char>, pending: Seq<char>)
    requires
        t.len() > 0,
        !is_space(t[0]),
        !is_space(t[t.len() - 1]),
    ensures
        is_extinf("#EXTINF:-1, "@ + t),
        extinf_title("#EXTINF:-1, "@ + t, pending) == t,
{
    let m = "#EXTINF:-1, "@;
    let l = m + t;
    reveal_strlit("#EXTINF:-1, ");
    assert(m.len() == 12);
    assert(l[0] == '#' && l[1] == 'E' && l[2] == 'X' && l[3] == 'T' && l[4] == 'I' && l[5] == 'N'
        && l[6] == 'F');
    assert(is_extinf(l));
    assert forall|j: int| 0 <= j < 10 implies l[j] != ',' by {
        assert(l[j] == m[j]);
    }
    assert(l[10] == ',');
    lemma_find_char_is(l, ',', 10);
    assert(l.subrange(11, l.len() as int) =~= seq![' '] + t);
    lemma_trimmed_space_prefix(t);
}

/// Parsing the lines of a rendered pair block, starting with no
/// pending title, recovers exactly the pairs.
proof fn lemma_round_trip_from(pairs: Seq<(Seq<char>, Seq<char>)>, i: int)
    requires
        0 <= i <= pairs.len(),
        forall|k: int| 0 <= k < pairs.len() ==> pair_well_formed(#[trigger] pairs[k]),
    ensures
        parse_lines(
            stripped_lines(lines_of(render_from(pairs, i))),
            Seq::<char>::empty(),
        ) == pairs.skip(i),
    decreases pairs.len() - i,
{
    if i == pairs.len() {
        let e = render_from(pairs, i);
        assert(e =~= Seq::<char>::empty());
        lemma_lines_of_no_newline(e);
        assert(stripped_lines(seq![e]) =~= seq![strip_cr(e)]);
        assert(strip_cr(e) == e);
        assert(trimmed(e).len() == 0);
        assert(seq![e].drop_first() =~= Seq::<Seq<char>>::empty());
        assert(parse_lines(Seq::<Seq<char>>::empty(), Seq::<char>::empty()) =~= Seq::<
            (Seq<char>, Seq<char>),
        >::empty());
        assert(parse_lines(seq![e], Seq::<char>::empty()) =~= Seq::<(Seq<char>, Seq<char>)>::empty());
        assert(pairs.skip(i) =~= Seq::<(Seq<char>, Seq<char>)>::empty());
    } else {
        lemma_round_trip_from(pairs, i + 1);
        let t = pairs[i].0;
        let u = pairs[i].1;
        assert(pair_well_formed(pairs[i]));
        let mline = "#EXTINF:-1, "@ + t;
        let rest = render_from(pairs, i + 1);
        reveal_strlit("#EXTINF:-1, ");
        reveal_strlit("\n");
        // The rendered block splits into the metadata line, the URL
        // line, and the rest.
        assert(render_from(pairs, i) == render_entry(t, u) + rest);
        assert("\n"@ =~= seq!['\n']);
        assert(render_from(pairs, i) =~= mline + seq!['\n'] + (u + seq!['\n'] + rest));
        assert forall|j: int| 0 <= j < mline.len() implies mline[j] != '\n' by {
            if j < 12 {
                assert(mline[j] == "#EXTINF:-1, "@[j]);
            } else {
                assert(mline[j] == t[j - 12]);
            }
        }
        lemma_lines_of_split(mline, u + seq!['\n'] + rest);
        lemma_lines_of_split(u, rest);
        assert(lines_of(render_from(pairs, i)) == seq![mline] + (seq![u] + lines_of(rest)));
        let all = stripped_lines(lines_of(render_from(pairs, i)));
        let tail = stripped_lines(lines_of(rest));
        assert(all =~= seq![strip_cr(mline)] + (seq![strip_cr(u)] + tail));
        assert(mline[mline.len() - 1] == t[t.len() - 1]);
        assert(strip_cr(mline) == mline);
        assert(strip_cr(u) == u);
        // First line: metadata, setting the pending title to `t`.
        lemma_meta_line(t, Seq::<char>::empty());
        assert(all[0] == mline);
        assert(all.drop_first() =~= seq![u] + tail);
        assert(parse_lines(all, Seq::<char>::empty()) == parse_lines(seq![u] + tail, t));
        // Second line: the URL, consuming the pending title.
        let ut = seq![u] + tail;
        assert(ut[0] == u);
        assert(ut.drop_first() =~= tail);
        assert(!is_extinf(u));
        lemma_trimmed_keeps_nonspace(u);
        assert(parse_lines(ut, t) == seq![(url_title(u, t), u)] + parse_lines(
            tail,
            Seq::<char>::empty(),
        ));
        assert(url_title(u, t) == t);
        assert(parse_lines(tail, Seq::<char>::empty()) == pairs.skip(i + 1));
        assert(seq![(t, u)] + pairs.skip(i + 1) =~= pairs.skip(i));
    }
}

/// Well-formed playlist text round-trips: rendering any sequence of
/// well-formed (title, url) pairs and parsing the result yields
/// exactly those pairs, titles and URLs in input order.
pub proof fn lemma_parse_render_round_trip(pairs: Seq<(Seq<char>, Seq<char>)>)
    requires
        forall|k: int| 0 <= k < pairs.len() ==> pair_well_formed(#[trigger] pairs[k]),
    ensures
        parse_text(render_playlist(pairs)) == pairs,
{
    let hdr = "#EXTM3U"@;
    let body = render_from(pairs, 0);
    reveal_strlit("#EXTM3U");
    reveal_strlit("#EXTM3U\n");
    assert(render_playlist(pairs) =~= hdr + seq!['\n'] + body);
    assert forall|j: int| 0 <= j < hdr.len() implies hdr[j] != '\n' by {
    }
    lemma_lines_of_split(hdr, body);
    let all = stripped_lines(lines_of(render_playlist(pairs)));
    assert(all =~= seq![strip_cr(hdr)] + stripped_lines(lines_of(body)));
    assert(strip_cr(hdr) == hdr);
    assert(all[0] == hdr);
    assert(!is_extinf(hdr));
    assert(hdr[0] == '#');
    assert(all.drop_first() =~= stripped_lines(lines_of(body)));
    assert(parse_lines(all, Seq::<char>::empty()) == parse_lines(
        stripped_lines(lines_of(body)),
        Seq::<char>::empty(),
    ));
    lemma_round_trip_from(pairs, 0);
    assert(pairs.skip(0) =~= pairs);
}

} // verus!
