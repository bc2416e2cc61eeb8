//! The playlist parser: turns extended-M3U text into an ordered sequence
//! of (title, url) pairs.
//!
//! Parsing is line-oriented and best-effort. A line beginning with the
//! `#EXTINF` marker captures the text after its first comma, trimmed, as
//! the pending title; any other line starting with `#` is a comment;
//! blank lines are skipped; every remaining line is a URL line that
//! consumes the pending title, falling back to the URL's last path
//! segment when no title is pending. Lines are separated by `\n`, and a
//! trailing `\r` is removed from each line.

use vstd::prelude::*;
use vstd::string::StrSliceExecFns;
use crate::text::{
    chars_vec, find_char, last_segment, lemma_find_char_is, scan_char, scan_seg, seg_start,
    str_views, trim_bounds, trimmed,
};

verus! {

/// One parsed playlist entry: a display title and the URL line it came
/// from.
pub struct ParsedEntry {
    pub title: String,
    pub url: String,
}

/// The (title, url) views of a sequence of parsed entries.
pub open spec fn entry_views(es: Seq<ParsedEntry>) -> Seq<(Seq<char>, Seq<char>)> {
    es.map_values(|e: ParsedEntry| (e.title@, e.url@))
}

/// `l` with one trailing carriage return removed, if present.
pub open spec fn strip_cr(l: Seq<char>) -> Seq<char> {
    if l.len() > 0 && l[l.len() - 1] == '\r' {
        l.drop_last()
    } else {
        l
    }
}

/// Every line of `ls` with its trailing carriage return removed.
pub open spec fn stripped_lines(ls: Seq<Seq<char>>) -> Seq<Seq<char>> {
    ls.map_values(|l: Seq<char>| strip_cr(l))
}

/// The lines of `s`, split on `\n`. Text without a newline is a single
/// line; every newline ends a line, so text ending in `\n` has a final
/// empty line.
pub open spec fn lines_of(s: Seq<char>) -> Seq<Seq<char>>
    decreases s.len(),
{
    if s.len() == 0 {
        seq![s]
    } else {
        let j = find_char(s, '\n');
        if 0 <= j < s.len() {
            seq![s.subrange(0, j)] + lines_of(s.subrange(j + 1, s.len() as int))
        } else {
            seq![s]
        }
    }
}

/// Text without a newline is a single line.
pub proof fn lemma_lines_of_no_newline(s: Seq<char>)
    requires
        forall|j: int| 0 <= j < s.len() ==> s[j] != '\n',
    ensures
        lines_of(s) == seq![s],
{
    if s.len() > 0 {
        lemma_find_char_is(s, '\n', s.len() as int);
    }
}

/// Splitting at the first newline: a newline-free prefix is the first
/// line, and the rest splits on its own.
pub proof fn lemma_lines_of_split(a: Seq<char>, b: Seq<char>)
    requires
        forall|j: int| 0 <= j < a.len() ==> a[j] != '\n',
    ensures
        lines_of(a + seq!['\n'] + b) == seq![a] + lines_of(b),
{
    let s = a + seq!['\n'] + b;
    assert forall|j: int| 0 <= j < a.len() implies s[j] != '\n' by {
        assert(s[j] == a[j]);
    }
    assert(s[a.len() as int] == '\n');
    lemma_find_char_is(s, '\n', a.len() as int);
    assert(s.subrange(0, a.len() as int) =~= a);
    assert(s.subrange(a.len() as int + 1, s.len() as int) =~= b);
}

/// Whether `l` begins with the `#EXTINF` metadata marker.
pub open spec fn is_extinf(l: Seq<char>) -> bool {
    l.len() >= 7 && l[0] == '#' && l[1] == 'E' && l[2] == 'X' && l[3] == 'T' && l[4] == 'I'
        && l[5] == 'N' && l[6] == 'F'
}

/// The pending title after a metadata line: the text after the first
/// comma, trimmed; a marker line without a comma leaves the pending
/// title unchanged.
pub open spec fn extinf_title(l: Seq<char>, pending: Seq<char>) -> Seq<char> {
    if find_char(l, ',') < l.len() {
        trimmed(l.subrange(find_char(l, ',') + 1, l.len() as int))
    } else {
        pending
    }
}

/// The title a URL line receives: the pending title, or the URL's last
/// path segment when none is pending.
pub open spec fn url_title(l: Seq<char>, pending: Seq<char>) -> Seq<char> {
    if pending.len() == 0 {
        last_segment(l)
    } else {
        pending
    }
}

/// Line-oriented parse of a sequence of lines, carrying the pending
/// title; yields (title, url) pairs in input order.
pub open spec fn parse_lines(ls: Seq<Seq<char>>, pending: Seq<char>) -> Seq<
    (Seq<char>, Seq<char>),
>
    decreases ls.len(),
{
    if ls.len() == 0 {
        Seq::empty()
    } else {
        let l = ls[0];
        let rest = ls.drop_first();
        if is_extinf(l) {
            parse_lines(rest, extinf_title(l, pending))
        } else if l.len() > 0 && l[0] == '#' {
            parse_lines(rest, pending)
        } else if trimmed(l).len() == 0 {
            parse_lines(rest, pending)
        } else {
            seq![(url_title(l, pending), l)] + parse_lines(rest, Seq::empty())
        }
    }
}

/// What parsing playlist text yields: the line-oriented parse of its
/// `\n`-split, `\r`-stripped lines, starting with no pending title.
pub open spec fn parse_text(text: Seq<char>) -> Seq<(Seq<char>, Seq<char>)> {
    parse_lines(stripped_lines(lines_of(text)), Seq::<char>::empty())
}

/// Splits text into its lines, exactly as `lines_of` describes.
pub fn split_lines(text: &str) -> (r: Vec<String>)
    ensures
        str_views(r@) == lines_of(text@),
{
    let v = chars_vec(text);
    let n = v.len();
    let mut out: Vec<String> = Vec::new();
    let mut i: usize = 0;
    let mut done: bool = false;
    proof {
        assert(text@.subrange(0, n as int) =~= text@);
        assert(str_views(out@) + lines_of(text@) =~= lines_of(text@));
    }
    while !done
        invariant
            n == v.len(),
            v@ == text@,
            i <= n,
            !done ==> lines_of(text@) == str_views(out@) + lines_of(
                text@.subrange(i as int, n as int),
            ),
            done ==> lines_of(text@) == str_views(out@),
        decreases n - i + (if done {
            0int
        } else {
            1int
        }),
    {
        let j = scan_char(&v, i, n, '\n');
        let piece = text.substring_char(i, j);
        let line = piece.to_owned();
        let ghost prev = out@;
        out.push(line);
        proof {
            let s_i = text@.subrange(i as int, n as int);
            let cut = text@.subrange(i as int, j as int);
            assert(j - i == find_char(s_i, '\n'));
            assert(str_views(out@) =~= str_views(prev).push(cut));
            if j < n {
                assert(s_i.len() > 0);
                assert(s_i.subrange(0, j - i) =~= cut);
                assert(s_i.subrange(j - i + 1, s_i.len() as int) =~= text@.subrange(
                    j + 1,
                    n as int,
                ));
                assert(lines_of(s_i) == seq![cut] + lines_of(text@.subrange(j + 1, n as int)));
                assert(str_views(prev) + lines_of(s_i) =~= str_views(out@) + lines_of(
                    text@.subrange(j + 1, n as int),
                ));
            } else {
                assert(s_i =~= cut);
                assert(lines_of(s_i) == seq![cut]);
                assert(str_views(prev) + lines_of(s_i) =~= str_views(out@));
            }
        }
        if j < n {
            i = j + 1;
        } else {
            done = true;
        }
    }
    out
}

/// Parses playlist text into its (title, url) entries, in input order,
/// exactly as `parse_text` describes. Malformed lines are skipped, never
/// an error: empty or unrecognized text yields an empty sequence.
pub fn parse_playlist(text: &str) -> (r: Vec<ParsedEntry>)
    ensures
        entry_views(r@) == parse_text(text@),
{
    let rl = split_lines(text);
    let m = rl.len();
    let ghost all = stripped_lines(lines_of(text@));
    let mut out: Vec<ParsedEntry> = Vec::new();
    let mut pending: String = String::new();
    let mut k: usize = 0;
    proof {
        assert(all.len() == m);
        assert(all.skip(0) =~= all);
        assert(entry_views(out@) + parse_lines(all, Seq::<char>::empty()) =~= parse_lines(
            all,
            Seq::<char>::empty(),
        ));
    }
    while k < m
        invariant
            m == rl.len(),
            str_views(rl@) == lines_of(text@),
            all == stripped_lines(lines_of(text@)),
            all.len() == m,
            k <= m,
            parse_text(text@) == entry_views(out@) + parse_lines(all.skip(k as int), pending@),
        decreases m - k,
    {
        let l: &String = &rl[k];
        let lv = chars_vec(l.as_str());
        let lvn = lv.len();
        let hi: usize = if lvn > 0 && lv[lvn - 1] == '\r' {
            lvn - 1
        } else {
            lvn
        };
        let ghost sl = strip_cr(l@);
        let ghost pp = pending@;
        proof {
            assert(all[k as int] == sl);
            assert(lv@.subrange(0, hi as int) =~= sl);
            assert(all.skip(k as int)[0] == sl);
            assert(all.skip(k as int).drop_first() =~= all.skip(k as int + 1));
            assert(all.skip(k as int).len() > 0);
        }
        let is_meta = hi >= 7 && lv[0] == '#' && lv[1] == 'E' && lv[2] == 'X' && lv[3] == 'T'
            && lv[4] == 'I' && lv[5] == 'N' && lv[6] == 'F';
        proof {
            if hi >= 7 {
                assert(sl[0] == lv@[0]);
                assert(sl[1] == lv@[1]);
                assert(sl[2] == lv@[2]);
                assert(sl[3] == lv@[3]);
                assert(sl[4] == lv@[4]);
                assert(sl[5] == lv@[5]);
                assert(sl[6] == lv@[6]);
            }
            assert(is_meta == is_extinf(sl));
        }
        if is_meta {
            let jc = scan_char(&lv, 0, hi, ',');
            proof {
                assert(find_char(sl, ',') == jc);
            }
            if jc < hi {
                let (a, b) = trim_bounds(&lv, jc + 1, hi);
                let t = l.as_str().substring_char(a, b);
                pending = t.to_owned();
                proof {
                    assert(sl.subrange(jc + 1, sl.len() as int) =~= lv@.subrange(
                        jc + 1,
                        hi as int,
                    ));
                    assert(pending@ == extinf_title(sl, pp));
                }
            }
            proof {
                assert(parse_lines(all.skip(k as int), pp) == parse_lines(
                    all.skip(k as int + 1),
                    extinf_title(sl, pp),
                ));
                assert(pending@ == extinf_title(sl, pp));
            }
        } else if hi > 0 && lv[0] == '#' {
            proof {
                assert(sl.len() > 0 && sl[0] == lv@[0]);
                assert(parse_lines(all.skip(k as int), pp) == parse_lines(
                    all.skip(k as int + 1),
                    pp,
                ));
            }
        } else {
            let (a, b) = trim_bounds(&lv, 0, hi);
            proof {
                if sl.len() > 0 {
                    assert(sl[0] == lv@[0]);
                }
            }
            if a == b {
                proof {
                    assert(trimmed(sl).len() == 0);
                    assert(parse_lines(all.skip(k as int), pp) == parse_lines(
                        all.skip(k as int + 1),
                        pp,
                    ));
                }
            } else {
                let url = l.as_str().substring_char(0, hi).to_owned();
                let title: String = if pending.as_str().is_empty() {
                    let st = scan_seg(&lv, 0, hi);
                    proof {
                        assert(seg_start(sl) == st);
                        assert(sl.subrange(st as int, sl.len() as int) =~= lv@.subrange(
                            st as int,
                            hi as int,
                        ));
                    }
                    l.as_str().substring_char(st, hi).to_owned()
                } else {
                    pending.clone()
                };
                let ghost po = out@;
                out.push(ParsedEntry { title, url });
                pending = String::new();
                proof {
                    assert(trimmed(sl).len() > 0);
                    assert(out@.last().title@ == url_title(sl, pp));
                    assert(out@.last().url@ == sl);
                    assert(entry_views(out@) =~= entry_views(po).push(
                        (url_title(sl, pp), sl),
                    ));
                    assert(parse_lines(all.skip(k as int), pp) == seq![(url_title(sl, pp), sl)]
                        + parse_lines(all.skip(k as int + 1), Seq::<char>::empty()));
                    assert(entry_views(po) + (seq![(url_title(sl, pp), sl)] + parse_lines(
                        all.skip(k as int + 1),
                        Seq::<char>::empty(),
                    )) =~= entry_views(out@) + parse_lines(
                        all.skip(k as int + 1),
                        Seq::<char>::empty(),
                    ));
                }
            }
        }
        k += 1;
    }
    proof {
        assert(all.skip(m as int) =~= Seq::<Seq<char>>::empty());
        assert(entry_views(out@) + parse_lines(all.skip(m as int), pending@) =~= entry_views(
            out@,
        ));
    }
    out
}

} // verus!
