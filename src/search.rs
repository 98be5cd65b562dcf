//! Selecting the lines of a document that hold a query.
use vstd::prelude::*;
use crate::text::{chars_of, contains, occurs_in, trim, trim_bounds};

verus! {

/// What `str::to_lowercase` makes of a string.
pub uninterp spec fn lower_of(s: Seq<char>) -> Seq<char>;

/// Every character of `s` is ASCII.
pub open spec fn all_ascii(s: Seq<char>) -> bool {
    forall|i: int| 0 <= i < s.len() ==> (#[trigger] s[i] as u32) < 0x80
}

/// `c` with an ASCII capital letter made small.
pub open spec fn ascii_lower_char(c: char) -> char {
    if 'A' <= c <= 'Z' {
        ((c as u32) + 0x20) as char
    } else {
        c
    }
}

/// `s` with each ASCII capital letter made small.
pub open spec fn ascii_lower(s: Seq<char>) -> Seq<char> {
    s.map_values(|c: char| ascii_lower_char(c))
}

/// The lowercase form of `s`, as `str::to_lowercase` makes it; on ASCII text
/// that is `A`..`Z` made small and every other character kept.
pub open spec fn lowered(s: Seq<char>) -> Seq<char> {
    if all_ascii(s) {
        ascii_lower(s)
    } else {
        lower_of(s)
    }
}

/// Relies on `str::to_lowercase`: the result depends on the characters alone,
/// and on ASCII text it turns `A`..`Z` into `a`..`z` and keeps every other character.
#[verifier::external_body]
fn lowercase(s: &str) -> (r: String)
    ensures
        r@ == lower_of(s@),
        all_ascii(s@) ==> r@ == ascii_lower(s@),
{
    s.to_lowercase()
}

/// The runs of `s` between newlines, one more than `s` has newlines.
pub open spec fn pieces(s: Seq<char>) -> Seq<Seq<char>>
    decreases s.len(),
{
    if s.len() == 0 {
        seq![Seq::empty()]
    } else {
        let p = pieces(s.drop_last());
        if s.last() == '\n' {
            p.push(Seq::empty())
        } else {
            p.update(p.len() - 1, p.last().push(s.last()))
        }
    }
}

/// There is always at least one run.
pub proof fn lemma_pieces_nonempty(s: Seq<char>)
    ensures
        pieces(s).len() >= 1,
    decreases s.len(),
{
    if s.len() > 0 {
        lemma_pieces_nonempty(s.drop_last());
    }
}

/// The lines of a document: the runs between newlines, where a final newline
/// closes the last line instead of opening an empty one. An empty document has
/// no lines.
pub open spec fn lines_of(s: Seq<char>) -> Seq<Seq<char>> {
    if s.len() == 0 {
        Seq::empty()
    } else if s.last() == '\n' {
        pieces(s).drop_last()
    } else {
        pieces(s)
    }
}

/// Whether `line` holds `query`: as written, or with both lowered when the
/// search ignores case.
pub open spec fn line_matches(line: Seq<char>, query: Seq<char>, case_sensitive: bool) -> bool {
    if case_sensitive {
        contains(line, query)
    } else {
        contains(lowered(line), lowered(query))
    }
}

/// The trimmed lines among `lines` that hold `query`, in their order.
pub open spec fn selected(lines: Seq<Seq<char>>, query: Seq<char>, case_sensitive: bool) -> Seq<
    Seq<char>,
>
    decreases lines.len(),
{
    if lines.len() == 0 {
        Seq::empty()
    } else {
        let rest = selected(lines.drop_last(), query, case_sensitive);
        if line_matches(lines.last(), query, case_sensitive) {
            rest.push(trim(lines.last()))
        } else {
            rest
        }
    }
}

/// What a search for `query` in `document` returns.
pub open spec fn search_result(query: Seq<char>, document: Seq<char>, case_sensitive: bool) -> Seq<
    Seq<char>,
> {
    selected(lines_of(document), query, case_sensitive)
}

/// The characters that each slice of `r` holds.
pub open spec fn views(r: Seq<&str>) -> Seq<Seq<char>> {
    r.map_values(|x: &str| x@)
}

/// Whether `line` holds `query` as a run of characters. With `line` and
/// `query` lowered first, this is the test of a search that ignores case.
pub fn line_contains(line: &str, query: &str) -> (r: bool)
    ensures
        r == contains(line@, query@),
{
    let lv = chars_of(line);
    let qv = chars_of(query);
    assert(lv@.subrange(0, lv@.len() as int) =~= lv@);
    occurs_in(&lv, 0, lv.len(), &qv)
}

/// Whether the line `v[lo..hi]` of `contents` holds the (already lowered, when
/// case is ignored) query `q`.
fn line_hit(contents: &str, v: &Vec<char>, lo: usize, hi: usize, q: &Vec<char>, case_sensitive: bool) -> (r: bool)
    requires
        v@ == contents@,
        lo <= hi <= v.len(),
    ensures
        case_sensitive ==> r == contains(v@.subrange(lo as int, hi as int), q@),
        !case_sensitive ==> r == contains(lowered(v@.subrange(lo as int, hi as int)), q@),
{
    if case_sensitive {
        occurs_in(v, lo, hi, q)
    } else {
        let low = lowercase(contents.substring_char(lo, hi));
        let lv = chars_of(low.as_str());
        assert(lv@.subrange(0, lv@.len() as int) =~= lv@);
        occurs_in(&lv, 0, lv.len(), q)
    }
}

/// The lines of `contents` that hold `query`, each without its leading and
/// trailing whitespace, in the order of the document. With `case_sensitive`
/// false, each line and the query are lowered before the test. The slices
/// borrow from `contents`.
pub fn search<'a>(query: &str, contents: &'a str, case_sensitive: bool) -> (r: Vec<&'a str>)
    ensures
        views(r@) == search_result(query@, contents@, case_sensitive),
{
    let v = chars_of(contents);
    let q = if case_sensitive {
        chars_of(query)
    } else {
        let lq = lowercase(query);
        chars_of(lq.as_str())
    };
    let ghost qs = query@;
    let mut out: Vec<&'a str> = Vec::new();
    let mut start: usize = 0;
    let mut i: usize = 0;
    while i < v.len()
        invariant
            v@ == contents@,
            q@ == (if case_sensitive { qs } else { lowered(qs) }),
            qs == query@,
            start <= i <= v.len(),
            start == i <==> (i == 0 || v@[i - 1] == '\n'),
            pieces(v@.take(i as int)).last() == v@.subrange(start as int, i as int),
            views(out@) == selected(pieces(v@.take(i as int)).drop_last(), qs, case_sensitive),
        decreases v.len() - i,
    {
        let ghost old_p = pieces(v@.take(i as int));
        proof {
            lemma_pieces_nonempty(v@.take(i as int));
        }
        let ghost old_out = out@;
        assert(v@.take(i + 1).drop_last() =~= v@.take(i as int));
        if v[i] == '\n' {
            keep_line(&mut out, contents, &v, start, i, &q, case_sensitive, Ghost(qs));
            assert(pieces(v@.take(i + 1)) == old_p.push(Seq::empty()));
            assert(old_p.push(Seq::empty()).drop_last() =~= old_p);
            assert(old_p.drop_last().push(old_p.last()) =~= old_p);
            start = i + 1;
        } else {
            let ghost np = old_p.update(old_p.len() - 1, old_p.last().push(v@[i as int]));
            assert(pieces(v@.take(i + 1)) == np);
            assert(np.drop_last() =~= old_p.drop_last());
            assert(v@.subrange(start as int, i + 1) =~= v@.subrange(start as int, i as int).push(
                v@[i as int],
            ));
        }
        i = i + 1;
        assert(v@.subrange(start as int, i as int) == pieces(v@.take(i as int)).last());
    }
    let ghost p = pieces(v@.take(i as int));
    proof {
        lemma_pieces_nonempty(v@.take(i as int));
    }
    assert(v@.take(i as int) =~= v@);
    if start < v.len() {
        keep_line(&mut out, contents, &v, start, v.len(), &q, case_sensitive, Ghost(qs));
        assert(p.drop_last().push(p.last()) =~= p);
    }
    out
}

/// Appends the trimmed line `v[lo..hi]` of `contents` to `out` when it holds
/// the query.
fn keep_line<'a>(
    out: &mut Vec<&'a str>,
    contents: &'a str,
    v: &Vec<char>,
    lo: usize,
    hi: usize,
    q: &Vec<char>,
    case_sensitive: bool,
    Ghost(qs): Ghost<Seq<char>>,
)
    requires
        v@ == contents@,
        lo <= hi <= v.len(),
        q@ == (if case_sensitive { qs } else { lowered(qs) }),
    ensures
        views(final(out)@) == (if line_matches(v@.subrange(lo as int, hi as int), qs, case_sensitive) {
            views(old(out)@).push(trim(v@.subrange(lo as int, hi as int)))
        } else {
            views(old(out)@)
        }),
{
    if line_hit(contents, v, lo, hi, q, case_sensitive) {
        let (a, b) = trim_bounds(v, lo, hi);
        let piece = contents.substring_char(a, b);
        out.push(piece);
        assert(views(out@) =~= views(old(out)@).push(piece@));
    }
}

} // verus!
