//! Properties of the search that hold for every query and document.
use vstd::prelude::*;
use crate::search::{
    all_ascii, ascii_lower, lemma_pieces_nonempty, line_matches, lines_of, lowered, pieces, search_result, selected,
};
use crate::text::{contains, is_whitespace, trim, trim_end, trim_start};

verus! {

/// `result` is the trimmed form of exactly the lines of `lines` that hold
/// `query`, each once, in the order in which they stand in `lines`.
pub open spec fn is_ordered_selection(
    result: Seq<Seq<char>>,
    lines: Seq<Seq<char>>,
    query: Seq<char>,
    case_sensitive: bool,
) -> bool {
    exists|idx: Seq<int>|
        {
            &&& idx.len() == result.len()
            &&& forall|k: int|
                0 <= k < idx.len() ==> {
                    &&& 0 <= #[trigger] idx[k] < lines.len()
                    &&& result[k] == trim(lines[idx[k]])
                    &&& line_matches(lines[idx[k]], query, case_sensitive)
                }
            &&& forall|j: int, k: int| 0 <= j < k < idx.len() ==> idx[j] < idx[k]
            &&& forall|i: int|
                0 <= i < lines.len() && line_matches(#[trigger] lines[i], query, case_sensitive)
                    ==> exists|k: int| 0 <= k < idx.len() && idx[k] == i
        }
}

proof fn selection_indices(lines: Seq<Seq<char>>, query: Seq<char>, case_sensitive: bool) -> (idx:
    Seq<int>)
    ensures
        idx.len() == selected(lines, query, case_sensitive).len(),
        forall|k: int|
            0 <= k < idx.len() ==> {
                &&& 0 <= #[trigger] idx[k] < lines.len()
                &&& selected(lines, query, case_sensitive)[k] == trim(lines[idx[k]])
                &&& line_matches(lines[idx[k]], query, case_sensitive)
            },
        forall|j: int, k: int| 0 <= j < k < idx.len() ==> idx[j] < idx[k],
        forall|i: int|
            0 <= i < lines.len() && line_matches(#[trigger] lines[i], query, case_sensitive)
                ==> exists|k: int| 0 <= k < idx.len() && idx[k] == i,
    decreases lines.len(),
{
    if lines.len() == 0 {
        Seq::empty()
    } else {
        let init = lines.drop_last();
        let rest = selection_indices(init, query, case_sensitive);
        let n = lines.len() - 1;
        assert forall|i: int| 0 <= i < n implies #[trigger] lines[i] == init[i] by {}
        if line_matches(lines.last(), query, case_sensitive) {
            let idx = rest.push(n);
            assert forall|i: int|
                0 <= i < lines.len() && line_matches(#[trigger] lines[i], query, case_sensitive)
                    implies exists|k: int| 0 <= k < idx.len() && idx[k] == i by {
                if i < n {
                    assert(line_matches(init[i], query, case_sensitive));
                    let k = choose|k: int| 0 <= k < rest.len() && rest[k] == i;
                    assert(idx[k] == i);
                } else {
                    assert(idx[idx.len() - 1] == i);
                }
            }
            idx
        } else {
            assert forall|i: int|
                0 <= i < lines.len() && line_matches(#[trigger] lines[i], query, case_sensitive)
                    implies exists|k: int| 0 <= k < rest.len() && rest[k] == i by {
                assert(i < n);
                assert(line_matches(init[i], query, case_sensitive));
            }
            rest
        }
    }
}

/// A search returns the trimmed matching lines of the document, each once and
/// in document order, and nothing else. Its result is a function of the query,
/// the document and the mode alone, so running it twice gives the same lines.
pub proof fn search_is_ordered_selection(
    query: Seq<char>,
    document: Seq<char>,
    case_sensitive: bool,
)
    ensures
        is_ordered_selection(
            search_result(query, document, case_sensitive),
            lines_of(document),
            query,
            case_sensitive,
        ),
{
    let idx = selection_indices(lines_of(document), query, case_sensitive);
    assert(idx.len() == search_result(query, document, case_sensitive).len());
}

proof fn selected_empty_query(lines: Seq<Seq<char>>)
    ensures
        selected(lines, Seq::empty(), true) == lines.map_values(|l: Seq<char>| trim(l)),
    decreases lines.len(),
{
    if lines.len() > 0 {
        selected_empty_query(lines.drop_last());
        let e = Seq::<char>::empty();
        assert(lines.last().subrange(0, 0 + e.len() as int) =~= e);
        assert(lines.map_values(|l: Seq<char>| trim(l)) =~= lines.drop_last().map_values(
            |l: Seq<char>| trim(l),
        ).push(trim(lines.last())));
    } else {
        assert(lines.map_values(|l: Seq<char>| trim(l)) =~= Seq::empty());
    }
}

/// Every string holds the empty string, so a case-sensitive search for the
/// empty query returns every line of the document, trimmed.
pub proof fn empty_query_returns_every_line(document: Seq<char>)
    ensures
        search_result(Seq::empty(), document, true) == lines_of(document).map_values(
            |l: Seq<char>| trim(l),
        ),
{
    selected_empty_query(lines_of(document));
}

proof fn pieces_ascii(s: Seq<char>)
    requires
        all_ascii(s),
    ensures
        forall|k: int| 0 <= k < pieces(s).len() ==> all_ascii(#[trigger] pieces(s)[k]),
    decreases s.len(),
{
    if s.len() > 0 {
        let init = s.drop_last();
        assert(all_ascii(init)) by {
            assert forall|i: int| 0 <= i < init.len() implies (#[trigger] init[i] as u32) < 0x80 by {
                assert(init[i] == s[i]);
            }
        }
        pieces_ascii(init);
        let p = pieces(init);
        if s.last() != '\n' {
            lemma_pieces_nonempty(init);
            let l = p.last().push(s.last());
            assert(all_ascii(p[p.len() - 1]));
            assert forall|i: int| 0 <= i < l.len() implies (#[trigger] l[i] as u32) < 0x80 by {
                if i < l.len() - 1 {
                    assert(l[i] == p[p.len() - 1][i]);
                } else {
                    assert(l[i] == s[s.len() - 1]);
                }
            }
        } else {
            assert(all_ascii(Seq::<char>::empty()));
        }
    }
}

proof fn exact_match_survives_lowering(line: Seq<char>, query: Seq<char>)
    requires
        all_ascii(line),
        all_ascii(query),
        contains(line, query),
    ensures
        contains(lowered(line), lowered(query)),
{
    let i = choose|i: int|
        0 <= i && i + query.len() <= line.len() && #[trigger] line.subrange(i, i + query.len())
            == query;
    assert(ascii_lower(line).subrange(i, i + query.len()) =~= ascii_lower(query));
}

/// Ignoring case loses no match: on ASCII text, every line of the document
/// that holds the query as written also holds it once both are lowered.
/// (Beyond ASCII, lowering may depend on context, as Greek capital sigma
/// does at the end of a word.)
pub proof fn ignoring_case_keeps_exact_matches(query: Seq<char>, document: Seq<char>)
    requires
        all_ascii(query),
        all_ascii(document),
    ensures
        forall|k: int|
            0 <= k < lines_of(document).len() && line_matches(
                #[trigger] lines_of(document)[k],
                query,
                true,
            ) ==> line_matches(lines_of(document)[k], query, false),
{
    pieces_ascii(document);
    assert forall|k: int|
        0 <= k < lines_of(document).len() && line_matches(
            #[trigger] lines_of(document)[k],
            query,
            true,
        ) implies line_matches(lines_of(document)[k], query, false) by {
        assert(lines_of(document)[k] == pieces(document)[k]);
        exact_match_survives_lowering(lines_of(document)[k], query);
    }
}

proof fn trim_start_bound(s: Seq<char>) -> (a: int)
    ensures
        0 <= a <= s.len(),
        trim_start(s) == s.subrange(a, s.len() as int),
        forall|i: int| 0 <= i < a ==> is_whitespace(#[trigger] s[i]),
        a < s.len() ==> !is_whitespace(s[a]),
    decreases s.len(),
{
    if s.len() > 0 && is_whitespace(s[0]) {
        let a = trim_start_bound(s.drop_first()) + 1;
        assert forall|i: int| 0 < i < a implies is_whitespace(#[trigger] s[i]) by {
            assert(s[i] == s.drop_first()[i - 1]);
        }
        assert(s.drop_first().subrange(a - 1, s.len() - 1) =~= s.subrange(a, s.len() as int));
        a
    } else {
        assert(s.subrange(0, s.len() as int) =~= s);
        0
    }
}

proof fn trim_end_bound(s: Seq<char>) -> (b: int)
    ensures
        0 <= b <= s.len(),
        trim_end(s) == s.subrange(0, b),
        forall|i: int| b <= i < s.len() ==> is_whitespace(#[trigger] s[i]),
        b > 0 ==> !is_whitespace(s[b - 1]),
    decreases s.len(),
{
    if s.len() > 0 && is_whitespace(s.last()) {
        let b = trim_end_bound(s.drop_last());
        assert forall|i: int| b <= i < s.len() implies is_whitespace(#[trigger] s[i]) by {
            if i < s.len() - 1 {
                assert(s[i] == s.drop_last()[i]);
            }
        }
        assert(s.drop_last().subrange(0, b) =~= s.subrange(0, b));
        b
    } else {
        assert(s.subrange(0, s.len() as int) =~= s);
        s.len() as int
    }
}

/// Trimming removes whitespace at the two ends and nothing else: the trimmed
/// line is one unbroken run of the line, whatever whitespace stands inside
/// it is kept, all that was cut before and after it is whitespace, and the
/// run neither starts nor ends with whitespace.
pub proof fn trim_cuts_only_outer_whitespace(s: Seq<char>)
    ensures
        exists|a: int, b: int|
            {
                &&& 0 <= a <= b <= s.len()
                &&& trim(s) == s.subrange(a, b)
                &&& forall|i: int| 0 <= i < a ==> is_whitespace(#[trigger] s[i])
                &&& forall|i: int| b <= i < s.len() ==> is_whitespace(#[trigger] s[i])
                &&& a < b ==> !is_whitespace(s[a]) && !is_whitespace(s[b - 1])
            },
{
    let a = trim_start_bound(s);
    let t = s.subrange(a, s.len() as int);
    let b0 = trim_end_bound(t);
    let b = a + b0;
    assert(t.subrange(0, b0) =~= s.subrange(a, b));
    assert forall|i: int| b <= i < s.len() implies is_whitespace(#[trigger] s[i]) by {
        assert(s[i] == t[i - a]);
    }
    if a < b {
        assert(s[a] == t[0]);
        assert(s[b - 1] == t[b0 - 1]);
    }
}

} // verus!
