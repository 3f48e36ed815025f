use vstd::prelude::*;
use crate::lines::spec_lines;
use crate::lines::split_lines;
use crate::pattern::Pattern;
use crate::pattern::PatternError;
use crate::pattern::lower_of;
use crate::pattern::lowercase;
use crate::pattern::pattern_ok;
use crate::pattern::regex_match;

verus! {

/// A single reported line of a text: its 1-based line number and its text.
pub struct MatchLine {
    pub line_number: usize,
    pub text: String,
}

/// The pattern text that a search compiles: the query itself, or its
/// lowercased form when case is ignored.
pub open spec fn compiled_pattern(query: Seq<char>, ignore_case: bool) -> Seq<char> {
    if ignore_case {
        lower_of(query)
    } else {
        query
    }
}

/// Whether a search with `query` under the given case mode has a pattern
/// that compiles.
pub open spec fn pattern_accepted(query: Seq<char>, ignore_case: bool) -> bool {
    pattern_ok(compiled_pattern(query, ignore_case))
}

/// Whether `query` matches `text`: directly, or with both sides lowercased
/// when case is ignored.
pub open spec fn text_matches(query: Seq<char>, text: Seq<char>, ignore_case: bool) -> bool {
    if ignore_case {
        regex_match(lower_of(query), lower_of(text))
    } else {
        regex_match(query, text)
    }
}

/// Whether a line or path is reported: the matching ones normally, the
/// non-matching ones under invert.
pub open spec fn selected(
    query: Seq<char>,
    text: Seq<char>,
    ignore_case: bool,
    invert: bool,
) -> bool {
    text_matches(query, text, ignore_case) != invert
}

/// The reported (1-based line number, line text) pairs of `lines`, in input
/// order: exactly the lines on which `selected` holds.
pub open spec fn match_results(
    query: Seq<char>,
    lines: Seq<Seq<char>>,
    ignore_case: bool,
    invert: bool,
) -> Seq<(int, Seq<char>)>
    decreases lines.len(),
{
    if lines.len() == 0 {
        seq![]
    } else {
        let init = match_results(query, lines.drop_last(), ignore_case, invert);
        if selected(query, lines.last(), ignore_case, invert) {
            init.push((lines.len() as int, lines.last()))
        } else {
            init
        }
    }
}

/// The (line number, text) pairs that a vector of `MatchLine` stands for.
pub open spec fn results_view(rs: Seq<MatchLine>) -> Seq<(int, Seq<char>)> {
    rs.map_values(|m: MatchLine| (m.line_number as int, m.text@))
}

/// Every reported pair is a line of the text under its 1-based number, and
/// a line is reported exactly when `selected` holds of it.
pub proof fn lemma_match_results_elem(
    query: Seq<char>,
    lines: Seq<Seq<char>>,
    ignore_case: bool,
    invert: bool,
)
    ensures
        forall|p: (int, Seq<char>)|
            #[trigger] match_results(query, lines, ignore_case, invert).contains(p) ==> 1 <= p.0
                <= lines.len() && p.1 == lines[p.0 - 1] && selected(query, p.1, ignore_case, invert),
        forall|k: int|
            0 <= k < lines.len() && selected(query, lines[k], ignore_case, invert)
                ==> #[trigger] match_results(query, lines, ignore_case, invert).contains(
                (k + 1, lines[k]),
            ),
    decreases lines.len(),
{
    if lines.len() == 0 {
    } else {
        let init = match_results(query, lines.drop_last(), ignore_case, invert);
        lemma_match_results_elem(query, lines.drop_last(), ignore_case, invert);
        assert(lines.drop_last().len() == lines.len() - 1);
        assert forall|k: int|
            0 <= k < lines.len() && selected(query, lines[k], ignore_case, invert)
                implies #[trigger] match_results(query, lines, ignore_case, invert).contains(
            (k + 1, lines[k]),
        ) by {
            if k < lines.len() - 1 {
                assert(lines.drop_last()[k] == lines[k]);
                assert(init.contains((k + 1, lines[k])));
                let i = choose|i: int| 0 <= i < init.len() && init[i] == (k + 1, lines[k]);
                if selected(query, lines.last(), ignore_case, invert) {
                    assert(init.push((lines.len() as int, lines.last()))[i] == init[i]);
                }
            } else {
                assert(lines.last() == lines[k]);
                if selected(query, lines.last(), ignore_case, invert) {
                    let pushed = init.push((lines.len() as int, lines.last()));
                    assert(pushed[init.len() as int] == (lines.len() as int, lines.last()));
                    assert(pushed.contains((k + 1, lines[k])));
                }
            }
        }
        assert forall|p: (int, Seq<char>)|
            #[trigger] match_results(query, lines, ignore_case, invert).contains(p) implies 1 <= p.0
            <= lines.len() && p.1 == lines[p.0 - 1] && selected(query, p.1, ignore_case, invert) by {
            let mr = match_results(query, lines, ignore_case, invert);
            let i = choose|i: int| 0 <= i < mr.len() && mr[i] == p;
            if selected(query, lines.last(), ignore_case, invert) {
                if i < init.len() {
                    assert(mr[i] == init[i]);
                    assert(init.contains(p));
                    assert(lines.drop_last()[p.0 - 1] == lines[p.0 - 1]);
                } else {
                    assert(p == (lines.len() as int, lines.last()));
                }
            } else {
                assert(init.contains(p));
                assert(lines.drop_last()[p.0 - 1] == lines[p.0 - 1]);
            }
        }
    }
}

/// The set of line numbers that a result sequence reports.
pub open spec fn result_numbers(rs: Seq<(int, Seq<char>)>) -> Set<int> {
    Set::new(|n: int| exists|i: int| 0 <= i < rs.len() && #[trigger] rs[i].0 == n)
}

/// Law: under one case mode, the matched lines and the non-matched lines
/// partition the lines of the text. The two reported line-number sets are
/// disjoint and their union is exactly 1 ..= the number of lines.
pub proof fn lemma_match_partition(query: Seq<char>, lines: Seq<Seq<char>>, ignore_case: bool)
    ensures
        result_numbers(match_results(query, lines, ignore_case, false)).union(
            result_numbers(match_results(query, lines, ignore_case, true)),
        ) =~= Set::new(|n: int| 1 <= n <= lines.len()),
        result_numbers(match_results(query, lines, ignore_case, false)).intersect(
            result_numbers(match_results(query, lines, ignore_case, true)),
        ) =~= Set::empty(),
{
    let direct = match_results(query, lines, ignore_case, false);
    let inverted = match_results(query, lines, ignore_case, true);
    lemma_match_results_elem(query, lines, ignore_case, false);
    lemma_match_results_elem(query, lines, ignore_case, true);
    assert forall|n: int| 1 <= n <= lines.len() implies result_numbers(direct).union(
        result_numbers(inverted),
    ).contains(n) by {
        if selected(query, lines[n - 1], ignore_case, false) {
            assert(direct.contains(((n - 1) + 1, lines[n - 1])));
            assert(direct.contains((n, lines[n - 1])));
            let i = choose|i: int| 0 <= i < direct.len() && direct[i] == (n, lines[n - 1]);
            assert(direct[i].0 == n);
        } else {
            assert(inverted.contains(((n - 1) + 1, lines[n - 1])));
            assert(inverted.contains((n, lines[n - 1])));
            let i = choose|i: int| 0 <= i < inverted.len() && inverted[i] == (n, lines[n - 1]);
            assert(inverted[i].0 == n);
        }
    }
    assert forall|n: int| result_numbers(direct).union(result_numbers(inverted)).contains(n)
        implies 1 <= n <= lines.len() by {
        if result_numbers(direct).contains(n) {
            let i = choose|i: int| 0 <= i < direct.len() && #[trigger] direct[i].0 == n;
            assert(direct.contains(direct[i]));
        } else {
            let i = choose|i: int| 0 <= i < inverted.len() && #[trigger] inverted[i].0 == n;
            assert(inverted.contains(inverted[i]));
        }
    }
    assert forall|n: int| !(result_numbers(direct).contains(n) && result_numbers(
        inverted,
    ).contains(n)) by {
        if result_numbers(direct).contains(n) && result_numbers(inverted).contains(n) {
            let i = choose|i: int| 0 <= i < direct.len() && #[trigger] direct[i].0 == n;
            let j = choose|j: int| 0 <= j < inverted.len() && #[trigger] inverted[j].0 == n;
            assert(direct.contains(direct[i]));
            assert(inverted.contains(inverted[j]));
            assert(direct[i].1 == lines[n - 1]);
            assert(inverted[j].1 == lines[n - 1]);
        }
    }
}

/// Searches `contents` line by line for `query` and returns the reported
/// lines in input order: the matching ones, or the non-matching ones under
/// `invert`, comparing lowercased forms under `ignore_case`. Fails exactly
/// when the compiled pattern text is not a valid pattern.
pub fn search_lines(query: &str, contents: &str, ignore_case: bool, invert: bool) -> (r: Result<
    Vec<MatchLine>,
    PatternError,
>)
    ensures
        r is Ok <==> pattern_accepted(query@, ignore_case),
        r is Ok ==> results_view(r->Ok_0@) == match_results(
            query@,
            spec_lines(contents@),
            ignore_case,
            invert,
        ),
{
    let pat_res = if ignore_case {
        let lowered = lowercase(query);
        Pattern::compile(lowered.as_str())
    } else {
        Pattern::compile(query)
    };
    let pat = match pat_res {
        Ok(p) => p,
        Err(e) => {
            return Err(e);
        },
    };
    let lines = split_lines(contents);
    let ghost lv = lines.deep_view();
    let mut out: Vec<MatchLine> = Vec::new();
    let mut idx: usize = 0;
    proof {
        assert(results_view(out@) =~= match_results(query@, lv.take(0), ignore_case, invert));
    }
    while idx < lines.len()
        invariant
            idx <= lines.len(),
            lv == lines.deep_view(),
            lv == spec_lines(contents@),
            lv.len() == lines.len(),
            pat@ == compiled_pattern(query@, ignore_case),
            results_view(out@) == match_results(query@, lv.take(idx as int), ignore_case, invert),
        decreases lines.len() - idx,
    {
        let line = &lines[idx];
        assert(line@ == lv[idx as int]);
        let matched = if ignore_case {
            let low = lowercase(line.as_str());
            pat.is_match(low.as_str())
        } else {
            pat.is_match(line.as_str())
        };
        assert(matched == text_matches(query@, lv[idx as int], ignore_case));
        let ghost prev = out@;
        if matched != invert {
            out.push(MatchLine { line_number: idx + 1, text: line.clone() });
        }
        proof {
            assert(lv.take(idx + 1).drop_last() =~= lv.take(idx as int));
            assert(lv.take(idx + 1).last() == lv[idx as int]);
            if matched != invert {
                assert(results_view(out@) =~= results_view(prev).push(
                    (idx + 1, lv[idx as int]),
                ));
            }
        }
        idx = idx + 1;
    }
    proof {
        assert(lv.take(lines.len() as int) =~= lv);
    }
    Ok(out)
}

/// Reports the lines of `contents` that `query` matches, case-sensitively.
pub fn search(query: &str, contents: &str) -> (r: Result<Vec<MatchLine>, PatternError>)
    ensures
        r is Ok <==> pattern_ok(query@),
        r is Ok ==> results_view(r->Ok_0@) == match_results(
            query@,
            spec_lines(contents@),
            false,
            false,
        ),
{
    search_lines(query, contents, false, false)
}

/// Reports the lines of `contents` that `query` does not match,
/// case-sensitively.
pub fn search_non(query: &str, contents: &str) -> (r: Result<Vec<MatchLine>, PatternError>)
    ensures
        r is Ok <==> pattern_ok(query@),
        r is Ok ==> results_view(r->Ok_0@) == match_results(
            query@,
            spec_lines(contents@),
            false,
            true,
        ),
{
    search_lines(query, contents, false, true)
}

/// Reports the lines of `contents` that the lowercased `query` matches when
/// the lines are lowercased too.
pub fn search_case_insensitive(query: &str, contents: &str) -> (r: Result<
    Vec<MatchLine>,
    PatternError,
>)
    ensures
        r is Ok <==> pattern_ok(lower_of(query@)),
        r is Ok ==> results_view(r->Ok_0@) == match_results(
            query@,
            spec_lines(contents@),
            true,
            false,
        ),
{
    search_lines(query, contents, true, false)
}

/// Reports the lines of `contents` that the lowercased `query` does not
/// match when the lines are lowercased too.
pub fn search_non_insensitive(query: &str, contents: &str) -> (r: Result<
    Vec<MatchLine>,
    PatternError,
>)
    ensures
        r is Ok <==> pattern_ok(lower_of(query@)),
        r is Ok ==> results_view(r->Ok_0@) == match_results(
            query@,
            spec_lines(contents@),
            true,
            true,
        ),
{
    search_lines(query, contents, true, true)
}

} // verus!
