use vstd::prelude::*;
use crate::config::Config;
use crate::config::spec_effective_depth;
use crate::pattern::Pattern;
use crate::pattern::PatternError;
use crate::pattern::lowercase;
use crate::search::compiled_pattern;
use crate::search::pattern_accepted;
use crate::search::selected;
use crate::search::text_matches;

verus! {

/// One entry met while walking a directory tree: its path as text, and its
/// depth below the root of the walk (the root itself stands at depth 0).
pub struct PathEntry {
    pub path: String,
    pub depth: usize,
}

/// The paths that the directory filter reports, in walk order: of the
/// entries within `max_depth`, the paths on which `selected` holds.
pub open spec fn dir_results(
    query: Seq<char>,
    entries: Seq<PathEntry>,
    ignore_case: bool,
    invert: bool,
    max_depth: int,
) -> Seq<Seq<char>>
    decreases entries.len(),
{
    if entries.len() == 0 {
        seq![]
    } else {
        let init = dir_results(query, entries.drop_last(), ignore_case, invert, max_depth);
        let e = entries.last();
        if e.depth <= max_depth && selected(query, e.path@, ignore_case, invert) {
            init.push(e.path@)
        } else {
            init
        }
    }
}

/// Law: the directory filter never reports a path from beyond the depth
/// bound: every reported path belongs to a walked entry whose depth is at
/// most `max_depth`.
pub proof fn lemma_dir_results_depth(
    query: Seq<char>,
    entries: Seq<PathEntry>,
    ignore_case: bool,
    invert: bool,
    max_depth: int,
)
    ensures
        forall|p: Seq<char>|
            #[trigger] dir_results(query, entries, ignore_case, invert, max_depth).contains(p)
                ==> exists|i: int|
                0 <= i < entries.len() && (#[trigger] entries[i].path)@ == p && entries[i].depth
                    <= max_depth,
    decreases entries.len(),
{
    if entries.len() == 0 {
    } else {
        let init = dir_results(query, entries.drop_last(), ignore_case, invert, max_depth);
        let whole = dir_results(query, entries, ignore_case, invert, max_depth);
        lemma_dir_results_depth(query, entries.drop_last(), ignore_case, invert, max_depth);
        assert forall|p: Seq<char>| #[trigger] whole.contains(p) implies exists|i: int|
            0 <= i < entries.len() && (#[trigger] entries[i].path)@ == p && entries[i].depth
                <= max_depth by {
            let e = entries.last();
            let k = choose|k: int| 0 <= k < whole.len() && whole[k] == p;
            if e.depth <= max_depth && selected(query, e.path@, ignore_case, invert) {
                if k < init.len() {
                    assert(whole[k] == init[k]);
                    assert(init.contains(p));
                } else {
                    assert(p == e.path@);
                    assert(entries[entries.len() - 1].path@ == p && entries[entries.len()
                        - 1].depth <= max_depth);
                }
            } else {
                assert(init.contains(p));
            }
            if init.contains(p) {
                let i = choose|i: int|
                    0 <= i < entries.drop_last().len() && (#[trigger] entries.drop_last()[i].path)@
                        == p && entries.drop_last()[i].depth <= max_depth;
                assert(entries[i].path@ == p && entries[i].depth <= max_depth);
            }
        }
    }
}

/// Filters the walked entries by the configured pattern and depth bound and
/// returns the reported paths in walk order: the matching ones, or the
/// non-matching ones under invert, comparing lowercased forms when case is
/// ignored. Fails exactly when the compiled pattern text is not a valid
/// pattern.
pub fn search_directory(config: &Config, entries: &Vec<PathEntry>) -> (r: Result<
    Vec<String>,
    PatternError,
>)
    ensures
        r is Ok <==> pattern_accepted(config.query@, config.ignore_case),
        r is Ok ==> r->Ok_0.deep_view() == dir_results(
            config.query@,
            entries@,
            config.ignore_case,
            config.non_match,
            spec_effective_depth(config.depth),
        ),
{
    let pat_res = if config.ignore_case {
        let lowered = lowercase(config.query.as_str());
        Pattern::compile(lowered.as_str())
    } else {
        Pattern::compile(config.query.as_str())
    };
    let pat = match pat_res {
        Ok(p) => p,
        Err(e) => {
            return Err(e);
        },
    };
    let max_depth = config.effective_depth();
    let invert = config.non_match;
    let mut out: Vec<String> = Vec::new();
    let mut idx: usize = 0;
    proof {
        assert(out.deep_view() =~= dir_results(
            config.query@,
            entries@.take(0),
            config.ignore_case,
            invert,
            max_depth as int,
        ));
    }
    while idx < entries.len()
        invariant
            idx <= entries.len(),
            pat@ == compiled_pattern(config.query@, config.ignore_case),
            invert == config.non_match,
            max_depth as int == spec_effective_depth(config.depth),
            out.deep_view() == dir_results(
                config.query@,
                entries@.take(idx as int),
                config.ignore_case,
                invert,
                max_depth as int,
            ),
        decreases entries.len() - idx,
    {
        let e = &entries[idx];
        let matched = if config.ignore_case {
            let low = lowercase(e.path.as_str());
            pat.is_match(low.as_str())
        } else {
            pat.is_match(e.path.as_str())
        };
        assert(matched == text_matches(config.query@, e.path@, config.ignore_case));
        let ghost prev = out.deep_view();
        if e.depth <= max_depth && matched != invert {
            out.push(e.path.clone());
        }
        proof {
            assert(entries@.take(idx + 1).drop_last() =~= entries@.take(idx as int));
            assert(entries@.take(idx + 1).last() == entries@[idx as int]);
            if e.depth <= max_depth && matched != invert {
                assert(out.deep_view() =~= prev.push(e.path@));
            }
        }
        idx = idx + 1;
    }
    proof {
        assert(entries@.take(entries.len() as int) =~= entries@);
    }
    Ok(out)
}

} // verus!
