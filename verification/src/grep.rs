//! Substring search over the lines of a file. Walking the repository and
//! reading the files is the caller's part; this module decides which lines
//! match and where.

use vstd::prelude::*;
use vstd::utf8::encode_utf8;
use crate::search::{lowercase, to_lower};
use crate::text::{chars_of, push_char};

verus! {

/// A line that holds the query.
#[derive(Debug, Clone)]
pub struct GrepResult {
    pub file_path: String,
    /// Counted from 1.
    pub line_number: usize,
    pub line_content: String,
    /// Byte offset of the match in the searched line (lowered when the
    /// search ignores case).
    pub match_start: usize,
    /// `match_start` plus the byte length of the searched query.
    pub match_end: usize,
}

/// The pieces of `s` between `'\n'` characters; `n` of them give `n + 1`
/// pieces, the last possibly empty.
pub open spec fn newline_pieces(s: Seq<char>) -> Seq<Seq<char>>
    decreases s.len(),
{
    if s.len() == 0 {
        seq![Seq::<char>::empty()]
    } else {
        let p = newline_pieces(s.drop_last());
        if s.last() == '\n' {
            p.push(Seq::<char>::empty())
        } else {
            p.update(p.len() - 1, p.last().push(s.last()))
        }
    }
}

/// A line that was ended by `'\n'` loses one `'\r'` before it.
pub open spec fn strip_cr(l: Seq<char>) -> Seq<char> {
    if l.len() > 0 && l.last() == '\r' {
        l.drop_last()
    } else {
        l
    }
}

/// The lines of a text as `str::lines` gives them: ended by `"\n"` or
/// `"\r\n"`, which they do not keep; a final line without an ending counts
/// when it is not empty, and keeps what it holds.
pub open spec fn lines_of(s: Seq<char>) -> Seq<Seq<char>> {
    let p = newline_pieces(s);
    let ended = p.drop_last().map_values(|l: Seq<char>| strip_cr(l));
    if p.last().len() > 0 {
        ended.push(p.last())
    } else {
        ended
    }
}

/// Whether `needle` occurs in `hay` at byte `p`.
pub open spec fn occurs_at(hay: Seq<u8>, needle: Seq<u8>, p: int) -> bool {
    &&& 0 <= p
    &&& p + needle.len() <= hay.len()
    &&& hay.subrange(p, p + needle.len()) == needle
}

/// Whether `p` is the first byte at which `needle` occurs in `hay`.
pub open spec fn first_at(hay: Seq<u8>, needle: Seq<u8>, p: int) -> bool {
    &&& occurs_at(hay, needle, p)
    &&& forall|q: int| 0 <= q < p ==> !#[trigger] occurs_at(hay, needle, q)
}

/// The first byte at which `needle` occurs in `hay`, as `str::find` reports
/// it on the UTF-8 encodings of two texts.
#[verifier::opaque]
pub open spec fn first_match(hay: Seq<u8>, needle: Seq<u8>) -> Option<int> {
    if exists|p: int| #[trigger] occurs_at(hay, needle, p) {
        Some(choose|p: int| first_at(hay, needle, p))
    } else {
        None
    }
}

/// `first_match` is the first occurrence, when there is one.
pub proof fn lemma_first_match(hay: Seq<u8>, needle: Seq<u8>)
    ensures
        match first_match(hay, needle) {
            Some(p) => first_at(hay, needle, p),
            None => forall|q: int| !#[trigger] occurs_at(hay, needle, q),
        },
{
    reveal(first_match);
    if exists|p: int| #[trigger] occurs_at(hay, needle, p) {
        let w = choose|p: int| #[trigger] occurs_at(hay, needle, p);
        lemma_first_exists(hay, needle, w);
    }
}

/// Where `needle` occurs at all, it occurs a first time.
proof fn lemma_first_exists(hay: Seq<u8>, needle: Seq<u8>, w: int)
    requires
        occurs_at(hay, needle, w),
    ensures
        exists|p: int| first_at(hay, needle, p),
    decreases w,
{
    if exists|q: int| 0 <= q < w && #[trigger] occurs_at(hay, needle, q) {
        let q = choose|q: int| 0 <= q < w && #[trigger] occurs_at(hay, needle, q);
        lemma_first_exists(hay, needle, q);
    } else {
        assert(first_at(hay, needle, w));
    }
}

/// The first occurrence is the one `first_match` names.
proof fn lemma_first_match_is(hay: Seq<u8>, needle: Seq<u8>, p: int)
    requires
        first_at(hay, needle, p),
    ensures
        first_match(hay, needle) == Some(p),
{
    lemma_first_match(hay, needle);
    let w = first_match(hay, needle)->0;
    if w < p {
        assert(occurs_at(hay, needle, w));
    } else if w > p {
        assert(occurs_at(hay, needle, p));
    }
}

/// The text that is searched for a line or a query: lowered when case is
/// ignored.
pub open spec fn searched(t: Seq<char>, ignore_case: bool) -> Seq<char> {
    if ignore_case {
        lowercase(t)
    } else {
        t
    }
}

/// The hits among `lines`, in order: line number, line and match offset.
pub open spec fn hits(lines: Seq<Seq<char>>, needle: Seq<u8>, ignore_case: bool) -> Seq<(int, Seq<char>, int)>
    decreases lines.len(),
{
    if lines.len() == 0 {
        Seq::empty()
    } else {
        let before = hits(lines.drop_last(), needle, ignore_case);
        match first_match(encode_utf8(searched(lines.last(), ignore_case)), needle) {
            Some(p) => before.push((lines.len() as int, lines.last(), p)),
            None => before,
        }
    }
}

proof fn lemma_newline_pieces_nonempty(s: Seq<char>)
    ensures
        newline_pieces(s).len() >= 1,
    decreases s.len(),
{
    if s.len() > 0 {
        lemma_newline_pieces_nonempty(s.drop_last());
    }
}

/// The lines of `content` (see `lines_of`); there are no more of them than
/// characters.
#[verifier::spinoff_prover]
pub fn split_lines(content: &str) -> (r: Vec<String>)
    ensures
        r@.map_values(|l: String| l@) == lines_of(content@),
        r@.len() <= content@.len(),
{
    let cs = chars_of(content);
    let ghost s = cs@;
    let mut out: Vec<String> = Vec::new();
    let mut current = String::new();
    let mut i: usize = 0;
    proof {
        assert(s.take(0) =~= Seq::<char>::empty());
        assert(newline_pieces(s.take(0)).drop_last().map_values(|l: Seq<char>| strip_cr(l)) =~= Seq::<Seq<char>>::empty());
    }
    while i < cs.len()
        invariant
            cs@ == s,
            s == content@,
            0 <= i <= s.len(),
            newline_pieces(s.take(i as int)).len() >= 1,
            current@ == newline_pieces(s.take(i as int)).last(),
            out@.map_values(|x: String| x@) == newline_pieces(s.take(i as int)).drop_last().map_values(|l: Seq<char>| strip_cr(l)),
            out@.len() + (if current@.len() > 0 { 1int } else { 0int }) <= i,
        decreases s.len() - i,
    {
        let c = cs[i];
        let ghost p = newline_pieces(s.take(i as int));
        proof {
            assert(s.take(i + 1).drop_last() =~= s.take(i as int));
            assert(s.take(i + 1).last() == c);
            lemma_newline_pieces_nonempty(s.take(i as int));
        }
        if c == '\n' {
            let line = without_cr(&current);
            let ghost before = out@;
            out.push(line);
            current = String::new();
            proof {
                let q = newline_pieces(s.take(i + 1));
                assert(q == p.push(Seq::<char>::empty()));
                assert(q.drop_last() =~= p);
                assert(p =~= p.drop_last().push(p.last()));
                assert(out@.map_values(|x: String| x@) =~= before.map_values(|x: String| x@).push(strip_cr(p.last())));
                assert(p.map_values(|l: Seq<char>| strip_cr(l)) =~= p.drop_last().map_values(|l: Seq<char>| strip_cr(l)).push(strip_cr(p.last())));
            }
        } else {
            push_char(&mut current, c);
            proof {
                let q = newline_pieces(s.take(i + 1));
                assert(q == p.update(p.len() - 1, p.last().push(c)));
                assert(q.drop_last() =~= p.drop_last());
            }
        }
        i = i + 1;
    }
    proof {
        assert(s.take(s.len() as int) =~= s);
    }
    if !current.as_str().is_empty() {
        let ghost before = out@;
        out.push(current);
        proof {
            assert(out@.map_values(|x: String| x@) =~= before.map_values(|x: String| x@).push(newline_pieces(s).last()));
        }
    }
    out
}

/// `l` without one final `'\r'`.
fn without_cr(l: &String) -> (r: String)
    ensures
        r@ == strip_cr(l@),
{
    let cs = chars_of(l.as_str());
    let n = cs.len();
    let mut r = String::new();
    let stop = if n > 0 && cs[n - 1] == '\r' { n - 1 } else { n };
    let mut k: usize = 0;
    while k < stop
        invariant
            cs@ == l@,
            stop <= cs@.len(),
            0 <= k <= stop,
            r@ == cs@.take(k as int),
        decreases stop - k,
    {
        push_char(&mut r, cs[k]);
        assert(cs@.take(k + 1) =~= cs@.take(k as int).push(cs@[k as int]));
        k = k + 1;
    }
    assert(cs@.take(stop as int) =~= strip_cr(l@));
    r
}

/// Whether `needle` occurs in `hay` at byte `p`.
fn matches_at(hay: &[u8], needle: &[u8], p: usize) -> (r: bool)
    requires
        p + needle@.len() <= hay@.len(),
    ensures
        r == occurs_at(hay@, needle@, p as int),
{
    let hl = hay.len();
    let mut k: usize = 0;
    while k < needle.len()
        invariant
            hl == hay@.len(),
            p + needle@.len() <= hay@.len(),
            0 <= k <= needle@.len(),
            forall|x: int| 0 <= x < k ==> hay@[p + x] == needle@[x],
        decreases needle@.len() - k,
    {
        if hay[p + k] != needle[k] {
            assert(hay@.subrange(p as int, p + needle@.len())[k as int] != needle@[k as int]);
            return false;
        }
        k = k + 1;
    }
    assert(hay@.subrange(p as int, p + needle@.len()) =~= needle@);
    true
}

/// The first byte at which `needle` occurs in `hay`.
pub fn find_bytes(hay: &[u8], needle: &[u8]) -> (r: Option<usize>)
    ensures
        match r {
            Some(p) => first_match(hay@, needle@) == Some(p as int),
            None => first_match(hay@, needle@) is None,
        },
{
    proof {
        lemma_first_match(hay@, needle@);
    }
    if needle.len() > hay.len() {
        proof {
            if let Some(w) = first_match(hay@, needle@) {
                assert(occurs_at(hay@, needle@, w));
            }
        }
        return None;
    }
    let last = hay.len() - needle.len();
    let mut p: usize = 0;
    while p <= last
        invariant
            last + needle@.len() == hay@.len(),
            0 <= p <= last + 1,
            forall|q: int| 0 <= q < p ==> !#[trigger] occurs_at(hay@, needle@, q),
        decreases last + 1 - p,
    {
        if matches_at(hay, needle, p) {
            proof {
                lemma_first_match_is(hay@, needle@, p as int);
            }
            return Some(p);
        }
        if p == last {
            proof {
                lemma_first_match(hay@, needle@);
                if let Some(w) = first_match(hay@, needle@) {
                    assert(occurs_at(hay@, needle@, w));
                }
            }
            return None;
        }
        p = p + 1;
    }
    proof {
        lemma_first_match(hay@, needle@);
        if let Some(w) = first_match(hay@, needle@) {
            assert(occurs_at(hay@, needle@, w));
        }
    }
    None
}

/// `r` reports the hit `h` of the file `relative` for a query of `n` bytes.
pub open spec fn reports(r: GrepResult, h: (int, Seq<char>, int), relative: Seq<char>, n: nat) -> bool {
    &&& r.file_path@ == relative
    &&& r.line_number == h.0
    &&& r.line_content@ == h.1
    &&& r.match_start == h.2
    &&& r.match_end == h.2 + n
}

/// The lines of `content` that hold `query`, with the file they come from.
/// With `ignore_case` each line and the query are lowered before the search.
#[verifier::spinoff_prover]
pub fn grep_content(relative: &str, content: &str, query: &str, ignore_case: bool) -> (r: Vec<GrepResult>)
    ensures
        ({
            let needle = encode_utf8(searched(query@, ignore_case));
            let h = hits(lines_of(content@), needle, ignore_case);
            &&& r@.len() == h.len()
            &&& forall|k: int| 0 <= k < h.len() ==> reports(#[trigger] r@[k], h[k], relative@, needle.len())
        }),
{
    let lines = split_lines(content);
    let lowered_query = to_lower(query);
    let needle_text: &str = if ignore_case { lowered_query.as_str() } else { query };
    let needle = needle_text.as_bytes();
    let ghost nb = encode_utf8(searched(query@, ignore_case));
    let ghost ls = lines_of(content@);
    let mut out: Vec<GrepResult> = Vec::new();
    let mut j: usize = 0;
    proof {
        assert(ls.take(0) =~= Seq::<Seq<char>>::empty());
    }
    while j < lines.len()
        invariant
            lines@.map_values(|l: String| l@) == ls,
            needle@ == nb,
            0 <= j <= lines@.len(),
            out@.len() == hits(ls.take(j as int), nb, ignore_case).len(),
            forall|k: int| 0 <= k < out@.len() ==> reports(#[trigger] out@[k], hits(ls.take(j as int), nb, ignore_case)[k], relative@, nb.len()),
        decreases lines@.len() - j,
    {
        let line = &lines[j];
        let lowered_line = to_lower(line.as_str());
        let hay_text: &str = if ignore_case { lowered_line.as_str() } else { line.as_str() };
        let hay = hay_text.as_bytes();
        let hay_len = hay.len();
        let ghost before = out@;
        let ghost h0 = hits(ls.take(j as int), nb, ignore_case);
        proof {
            assert(ls.take(j + 1).drop_last() =~= ls.take(j as int));
            assert(ls[j as int] == line@);
            assert(ls.take(j + 1).last() == line@);
        }
        match find_bytes(hay, needle) {
            Some(pos) => {
                proof {
                    lemma_first_match(hay@, nb);
                }
                out.push(GrepResult {
                    file_path: crate::text::owned(relative),
                    line_number: j + 1,
                    line_content: line.clone(),
                    match_start: pos,
                    match_end: pos + needle.len(),
                });
                proof {
                    let h = hits(ls.take(j + 1), nb, ignore_case);
                    assert(h == h0.push((j + 1, line@, pos as int)));
                    assert forall|k: int| 0 <= k < out@.len() implies reports(#[trigger] out@[k], h[k], relative@, nb.len()) by {
                        if k < before.len() {
                            assert(out@[k] == before[k]);
                        }
                    }
                }
            },
            None => {
                proof {
                    assert(hits(ls.take(j + 1), nb, ignore_case) == h0);
                }
            },
        }
        j = j + 1;
    }
    proof {
        assert(ls.take(lines@.len() as int) =~= ls);
    }
    out
}


/// Each hit names a line by its number counted from 1, with the text of
/// that line, and a place where the query occurs in the searched line; hits
/// come in line order, at most one per line.
#[verifier::spinoff_prover]
pub proof fn law_hits(lines: Seq<Seq<char>>, needle: Seq<u8>, ignore_case: bool)
    ensures
        ({
            let h = hits(lines, needle, ignore_case);
            &&& h.len() <= lines.len()
            &&& forall|k: int| 0 <= k < h.len() ==> {
                &&& 1 <= (#[trigger] h[k]).0 <= lines.len()
                &&& lines[h[k].0 - 1] == h[k].1
                &&& first_match(encode_utf8(searched(h[k].1, ignore_case)), needle) == Some(h[k].2)
                &&& occurs_at(encode_utf8(searched(h[k].1, ignore_case)), needle, h[k].2)
            }
            &&& forall|k: int, l: int| 0 <= k < l < h.len() ==> (#[trigger] h[k]).0 < (#[trigger] h[l]).0
        }),
    decreases lines.len(),
{
    if lines.len() > 0 {
        let front = lines.drop_last();
        law_hits(front, needle, ignore_case);
        let before = hits(front, needle, ignore_case);
        let h = hits(lines, needle, ignore_case);
        lemma_first_match(encode_utf8(searched(lines.last(), ignore_case)), needle);
        assert forall|k: int| 0 <= k < before.len() implies lines[(#[trigger] before[k]).0 - 1] == before[k].1 by {
            assert(lines[before[k].0 - 1] == front[before[k].0 - 1]);
        }
        assert forall|k: int| 0 <= k < h.len() implies {
            &&& 1 <= (#[trigger] h[k]).0 <= lines.len()
            &&& lines[h[k].0 - 1] == h[k].1
            &&& first_match(encode_utf8(searched(h[k].1, ignore_case)), needle) == Some(h[k].2)
            &&& occurs_at(encode_utf8(searched(h[k].1, ignore_case)), needle, h[k].2)
        } by {
            if k < before.len() {
                assert(h[k] == before[k]);
                lemma_first_match(encode_utf8(searched(before[k].1, ignore_case)), needle);
            }
        }
        assert forall|k: int, l: int| 0 <= k < l < h.len() implies (#[trigger] h[k]).0 < (#[trigger] h[l]).0 by {
            assert(h[k] == before[k]);
            if l < before.len() {
                assert(h[l] == before[l]);
            }
        }
    }
}

/// Whether some hit of `h` names line `n` (counted from 1) with text `line`.
pub open spec fn reports_line(h: Seq<(int, Seq<char>, int)>, n: int, line: Seq<char>) -> bool {
    exists|k: int| 0 <= k < h.len() && (#[trigger] h[k]).0 == n && h[k].1 == line
}

/// Law: no matching line is missed. Every line in which the query occurs
/// (both lowered first when case is ignored, compared on their UTF-8
/// bytes) is reported by a hit naming it; with `law_hits` (at most one hit
/// per line, each for a line where the query occurs) there is exactly one
/// hit for each such line.
pub proof fn law_hits_complete(lines: Seq<Seq<char>>, query: Seq<char>, ignore_case: bool, i: int, p: int)
    requires
        0 <= i < lines.len(),
        occurs_at(
            encode_utf8(if ignore_case { lowercase(lines[i]) } else { lines[i] }),
            encode_utf8(if ignore_case { lowercase(query) } else { query }),
            p,
        ),
    ensures
        reports_line(hits(lines, encode_utf8(if ignore_case { lowercase(query) } else { query }), ignore_case), i + 1, lines[i]),
    decreases lines.len(),
{
    let needle = encode_utf8(if ignore_case { lowercase(query) } else { query });
    let front = lines.drop_last();
    let before = hits(front, needle, ignore_case);
    let h = hits(lines, needle, ignore_case);
    lemma_first_match(encode_utf8(searched(lines.last(), ignore_case)), needle);
    if i < lines.len() - 1 {
        assert(front[i] == lines[i]);
        law_hits_complete(front, query, ignore_case, i, p);
        let k = choose|k: int| 0 <= k < before.len() && (#[trigger] before[k]).0 == i + 1 && before[k].1 == front[i];
        assert(h[k] == before[k]);
    } else {
        assert(lines.last() == lines[i]);
        assert(h[before.len() as int].0 == i + 1);
    }
}

} // verus!
