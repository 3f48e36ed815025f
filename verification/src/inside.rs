use vstd::prelude::*;
use crate::config::Config;
use crate::lines::spec_lines;
use crate::pattern::Pattern;
use crate::pattern::PatternError;
use crate::pattern::lowercase;
use crate::search::MatchLine;
use crate::search::match_results;
use crate::search::pattern_accepted;
use crate::search::results_view;
use crate::search::search_lines;

verus! {

/// Whether `p` ends in `suffix`.
pub open spec fn ends_with(p: Seq<char>, suffix: Seq<char>) -> bool {
    p.len() >= suffix.len() && p.subrange(p.len() - suffix.len(), p.len() as int) == suffix
}

/// Whether a walked path is one the inside search opens: a text file or a
/// subtitle file.
pub open spec fn is_searchable(p: Seq<char>) -> bool {
    ends_with(p, seq!['.', 't', 'x', 't']) || ends_with(p, seq!['.', 's', 'r', 't'])
}

/// Decides `is_searchable` from the last four characters of the path.
pub fn searchable_file(path: &str) -> (r: bool)
    ensures
        r == is_searchable(path@),
{
    let n = path.unicode_len();
    if n < 4 {
        return false;
    }
    let c0 = path.get_char(n - 4);
    let c1 = path.get_char(n - 3);
    let c2 = path.get_char(n - 2);
    let c3 = path.get_char(n - 1);
    let txt = c0 == '.' && c1 == 't' && c2 == 'x' && c3 == 't';
    let srt = c0 == '.' && c1 == 's' && c2 == 'r' && c3 == 't';
    proof {
        let tail = path@.subrange(n - 4, n as int);
        assert(tail =~= seq![c0, c1, c2, c3]);
        assert(path@.subrange(path@.len() - 4, path@.len() as int) == tail);
        if txt {
            assert(tail =~= seq!['.', 't', 'x', 't']);
        } else {
            assert(tail != seq!['.', 't', 'x', 't']) by {
                if tail == seq!['.', 't', 'x', 't'] {
                    assert(tail[0] == '.' && tail[1] == 't' && tail[2] == 'x' && tail[3] == 't');
                }
            }
        }
        if srt {
            assert(tail =~= seq!['.', 's', 'r', 't']);
        } else {
            assert(tail != seq!['.', 's', 'r', 't']) by {
                if tail == seq!['.', 's', 'r', 't'] {
                    assert(tail[0] == '.' && tail[1] == 's' && tail[2] == 'r' && tail[3] == 't');
                }
            }
        }
    }
    txt || srt
}

/// The paths that the inside search opens, in walk order: the searchable
/// ones among the walked paths.
pub open spec fn inside_targets(paths: Seq<Seq<char>>) -> Seq<Seq<char>>
    decreases paths.len(),
{
    if paths.len() == 0 {
        seq![]
    } else {
        let init = inside_targets(paths.drop_last());
        if is_searchable(paths.last()) {
            init.push(paths.last())
        } else {
            init
        }
    }
}

/// Law: the inside search only ever opens text or subtitle entries: every
/// path it selects ends in ".txt" or ".srt", and is one of the walked
/// paths.
pub proof fn lemma_inside_targets_searchable(paths: Seq<Seq<char>>)
    ensures
        forall|p: Seq<char>|
            #[trigger] inside_targets(paths).contains(p) ==> is_searchable(p) && paths.contains(p),
    decreases paths.len(),
{
    if paths.len() == 0 {
    } else {
        let init = inside_targets(paths.drop_last());
        let whole = inside_targets(paths);
        lemma_inside_targets_searchable(paths.drop_last());
        assert forall|p: Seq<char>| #[trigger] whole.contains(p) implies is_searchable(p)
            && paths.contains(p) by {
            let k = choose|k: int| 0 <= k < whole.len() && whole[k] == p;
            if is_searchable(paths.last()) && k == whole.len() - 1 && p == paths.last() {
                assert(paths[paths.len() - 1] == p);
            } else {
                if is_searchable(paths.last()) {
                    if k < init.len() {
                        assert(whole[k] == init[k]);
                        assert(init.contains(p));
                    } else {
                        assert(p == paths.last());
                        assert(paths[paths.len() - 1] == p);
                    }
                } else {
                    assert(init.contains(p));
                }
                if init.contains(p) {
                    let i = choose|i: int|
                        0 <= i < paths.drop_last().len() && paths.drop_last()[i] == p;
                    assert(paths[i] == p);
                }
            }
        }
    }
}

/// Selects from the walked paths the ones the inside search opens, in walk
/// order.
pub fn search_inside_targets(paths: &Vec<String>) -> (r: Vec<String>)
    ensures
        r.deep_view() == inside_targets(paths.deep_view()),
{
    let ghost pv = paths.deep_view();
    let mut out: Vec<String> = Vec::new();
    let mut idx: usize = 0;
    proof {
        assert(out.deep_view() =~= inside_targets(pv.take(0)));
    }
    while idx < paths.len()
        invariant
            idx <= paths.len(),
            pv == paths.deep_view(),
            pv.len() == paths.len(),
            out.deep_view() == inside_targets(pv.take(idx as int)),
        decreases paths.len() - idx,
    {
        let p = &paths[idx];
        assert(p@ == pv[idx as int]);
        let keep = searchable_file(p.as_str());
        let ghost prev = out.deep_view();
        if keep {
            out.push(p.clone());
        }
        proof {
            assert(pv.take(idx + 1).drop_last() =~= pv.take(idx as int));
            assert(pv.take(idx + 1).last() == pv[idx as int]);
            if keep {
                assert(out.deep_view() =~= prev.push(pv[idx as int]));
            }
        }
        idx = idx + 1;
    }
    proof {
        assert(pv.take(paths.len() as int) =~= pv);
    }
    out
}

/// The text of one file the inside search opened: its path and its full
/// contents.
pub struct FileText {
    pub path: String,
    pub contents: String,
}

/// The reported lines of one opened file.
pub struct FileMatches {
    pub path: String,
    pub matches: Vec<MatchLine>,
}

/// Runs the line search over the contents of each opened file, under the
/// configured case and invert modes, and reports per file the lines found,
/// in input order. Fails exactly when the compiled pattern text is not a
/// valid pattern.
pub fn search_inside(config: &Config, files: &Vec<FileText>) -> (r: Result<
    Vec<FileMatches>,
    PatternError,
>)
    ensures
        r is Ok <==> pattern_accepted(config.query@, config.ignore_case),
        r is Ok ==> ({
            let reports = r->Ok_0@;
            &&& reports.len() == files@.len()
            &&& forall|i: int|
                0 <= i < reports.len() ==> (#[trigger] reports[i]).path@ == files@[i].path@
                    && results_view(reports[i].matches@) == match_results(
                    config.query@,
                    spec_lines(files@[i].contents@),
                    config.ignore_case,
                    config.non_match,
                )
        }),
{
    let probe = if config.ignore_case {
        let lowered = lowercase(config.query.as_str());
        Pattern::compile(lowered.as_str())
    } else {
        Pattern::compile(config.query.as_str())
    };
    if let Err(e) = probe {
        return Err(e);
    }
    let mut reports: Vec<FileMatches> = Vec::new();
    let mut idx: usize = 0;
    while idx < files.len()
        invariant
            idx <= files.len(),
            pattern_accepted(config.query@, config.ignore_case),
            reports@.len() == idx,
            forall|i: int|
                0 <= i < idx ==> (#[trigger] reports@[i]).path@ == files@[i].path@
                    && results_view(reports@[i].matches@) == match_results(
                    config.query@,
                    spec_lines(files@[i].contents@),
                    config.ignore_case,
                    config.non_match,
                ),
        decreases files.len() - idx,
    {
        let f = &files[idx];
        let found = search_lines(
            config.query.as_str(),
            f.contents.as_str(),
            config.ignore_case,
            config.non_match,
        );
        match found {
            Ok(matches) => {
                reports.push(FileMatches { path: f.path.clone(), matches });
            },
            Err(e) => {
                return Err(e);
            },
        }
        idx = idx + 1;
    }
    Ok(reports)
}

} // verus!
