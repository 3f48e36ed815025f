use minigrep::inside::{search_inside, search_inside_targets, searchable_file, FileText};
use minigrep::pathfilter::{search_directory, PathEntry};
use minigrep::search::{
    search, search_case_insensitive, search_lines, search_non, search_non_insensitive, MatchLine,
};
use minigrep::config::{Config, EnvToggles};

fn pairs(ms: &[MatchLine]) -> Vec<(usize, String)> {
    ms.iter().map(|m| (m.line_number, m.text.clone())).collect()
}

fn plain_config(query: &str) -> Config {
    Config {
        query: query.to_string(),
        file_path: String::new(),
        ignore_case: false,
        non_match: false,
        directory: false,
        inside: false,
        depth: None,
        threads: false,
        num_of_threads: None,
    }
}

#[test]
fn matches_case_sensitive_first_line_only() {
    let r = search("abc", "abc\nABC\nxyz").unwrap();
    assert_eq!(pairs(&r), vec![(1, "abc".to_string())]);
}

#[test]
fn matches_ignore_case_first_two_lines() {
    let r = search_case_insensitive("abc", "abc\nABC\nxyz").unwrap();
    assert_eq!(pairs(&r), vec![(1, "abc".to_string()), (2, "ABC".to_string())]);
}

#[test]
fn invert_case_sensitive_reports_non_matching_lines() {
    let r = search_non("abc", "abc\nABC\nxyz").unwrap();
    assert_eq!(pairs(&r), vec![(2, "ABC".to_string()), (3, "xyz".to_string())]);
}

#[test]
fn invert_ignore_case_reports_last_line_only() {
    let r = search_non_insensitive("abc", "abc\nABC\nxyz").unwrap();
    assert_eq!(pairs(&r), vec![(3, "xyz".to_string())]);
}

#[test]
fn uppercase_query_matches_lowercase_line_when_case_ignored() {
    let r = search_case_insensitive("ABC", "abc\nxyz").unwrap();
    assert_eq!(pairs(&r), vec![(1, "abc".to_string())]);
    let strict = search("ABC", "abc\nxyz").unwrap();
    assert!(strict.is_empty());
}

#[test]
fn regex_metacharacters_are_honored() {
    let r = search("a.c", "abc\naxc\nax\nc").unwrap();
    assert_eq!(pairs(&r), vec![(1, "abc".to_string()), (2, "axc".to_string())]);
    let anchored = search("^x", "axe\nxyz").unwrap();
    assert_eq!(pairs(&anchored), vec![(2, "xyz".to_string())]);
}

#[test]
fn matched_and_inverted_lines_partition_the_text() {
    let text = "one\ntwo\nthree\nfour";
    let direct = search("o", text).unwrap();
    let inverted = search_non("o", text).unwrap();
    let mut seen: Vec<usize> = Vec::new();
    for m in direct.iter().chain(inverted.iter()) {
        assert!(!seen.contains(&m.line_number));
        seen.push(m.line_number);
    }
    seen.sort();
    assert_eq!(seen, vec![1, 2, 3, 4]);
}

#[test]
fn ignore_case_matches_superset_of_case_sensitive_for_alphabetic_pattern() {
    let text = "Dog\ndog\nDOG\ncat\ndOg";
    let strict = search("dog", text).unwrap();
    let loose = search_case_insensitive("dog", text).unwrap();
    for m in strict.iter() {
        assert!(loose.iter().any(|l| l.line_number == m.line_number));
    }
    assert_eq!(pairs(&strict), vec![(2, "dog".to_string())]);
    assert_eq!(
        pairs(&loose),
        vec![
            (1, "Dog".to_string()),
            (2, "dog".to_string()),
            (3, "DOG".to_string()),
            (5, "dOg".to_string())
        ]
    );
}

#[test]
fn crlf_and_trailing_newline_do_not_change_lines() {
    let r = search_lines(".", "ab\r\ncd\n", false, false).unwrap();
    assert_eq!(pairs(&r), vec![(1, "ab".to_string()), (2, "cd".to_string())]);
}

#[test]
fn empty_text_has_no_lines_even_inverted() {
    assert!(search("a", "").unwrap().is_empty());
    assert!(search_non("a", "").unwrap().is_empty());
}

#[test]
fn invalid_pattern_is_reported_as_error() {
    assert!(search("(", "anything").is_err());
    assert!(search_non("[", "anything").is_err());
    assert!(search_case_insensitive("(", "anything").is_err());
    assert!(search_non_insensitive("[", "anything").is_err());
}

#[test]
fn directory_filter_reports_matching_paths_within_depth() {
    let entries = vec![
        PathEntry { path: "./notes".to_string(), depth: 0 },
        PathEntry { path: "./notes/todo.txt".to_string(), depth: 1 },
        PathEntry { path: "./notes/deep/todo.txt".to_string(), depth: 2 },
        PathEntry { path: "./other.rs".to_string(), depth: 1 },
    ];
    let config = Config { directory: true, ..plain_config("todo") };
    let r = search_directory(&config, &entries).unwrap();
    assert_eq!(r, vec!["./notes/todo.txt".to_string()]);
}

#[test]
fn directory_filter_depth_bound_is_honored() {
    let entries = vec![
        PathEntry { path: "a/x.txt".to_string(), depth: 1 },
        PathEntry { path: "a/b/x.txt".to_string(), depth: 2 },
        PathEntry { path: "a/b/c/x.txt".to_string(), depth: 3 },
    ];
    let config = Config { directory: true, depth: Some(2), ..plain_config("x") };
    let r = search_directory(&config, &entries).unwrap();
    assert_eq!(r, vec!["a/x.txt".to_string(), "a/b/x.txt".to_string()]);
}

#[test]
fn directory_filter_invert_and_ignore_case() {
    let entries = vec![
        PathEntry { path: "A/LOG.TXT".to_string(), depth: 1 },
        PathEntry { path: "a/readme".to_string(), depth: 1 },
    ];
    let loose = Config { directory: true, ignore_case: true, ..plain_config("log") };
    let r = search_directory(&loose, &entries).unwrap();
    assert_eq!(r, vec!["A/LOG.TXT".to_string()]);
    let inverted = Config { directory: true, non_match: true, ..plain_config("readme") };
    let r2 = search_directory(&inverted, &entries).unwrap();
    assert_eq!(r2, vec!["A/LOG.TXT".to_string()]);
}

#[test]
fn directory_filter_rejects_bad_pattern() {
    let entries: Vec<PathEntry> = Vec::new();
    let config = Config { directory: true, ..plain_config("(") };
    assert!(search_directory(&config, &entries).is_err());
}

#[test]
fn searchable_file_accepts_only_txt_and_srt() {
    assert!(searchable_file("notes.txt"));
    assert!(searchable_file("movie.srt"));
    assert!(searchable_file(".txt"));
    assert!(!searchable_file("notes.txt.bak"));
    assert!(!searchable_file("notes.TXT"));
    assert!(!searchable_file("txt"));
    assert!(!searchable_file("archive.tar"));
    assert!(!searchable_file(""));
}

#[test]
fn inside_targets_keeps_only_searchable_paths_in_order() {
    let paths = vec![
        "a.txt".to_string(),
        "b.rs".to_string(),
        "c.srt".to_string(),
        "d".to_string(),
    ];
    let r = search_inside_targets(&paths);
    assert_eq!(r, vec!["a.txt".to_string(), "c.srt".to_string()]);
}

#[test]
fn inside_search_reports_lines_per_file() {
    let files = vec![
        FileText { path: "a.txt".to_string(), contents: "dog\ncat\ndog".to_string() },
        FileText { path: "b.srt".to_string(), contents: "bird".to_string() },
    ];
    let config = plain_config("dog");
    let r = search_inside(&config, &files).unwrap();
    assert_eq!(r.len(), 2);
    assert_eq!(r[0].path, "a.txt");
    assert_eq!(pairs(&r[0].matches), vec![(1, "dog".to_string()), (3, "dog".to_string())]);
    assert_eq!(r[1].path, "b.srt");
    assert!(r[1].matches.is_empty());
}

#[test]
fn inside_search_rejects_bad_pattern_even_without_files() {
    let files: Vec<FileText> = Vec::new();
    let config = plain_config("(");
    assert!(search_inside(&config, &files).is_err());
}

#[test]
fn env_toggles_are_carried_into_inside_search() {
    let files = vec![FileText {
        path: "a.txt".to_string(),
        contents: "DOG\ndog".to_string(),
    }];
    let config = Config { ignore_case: true, non_match: true, ..plain_config("dog") };
    let r = search_inside(&config, &files).unwrap();
    assert!(r[0].matches.is_empty());
}

#[test]
fn env_toggles_struct_is_usable_from_callers() {
    let env = EnvToggles {
        ignore_case: true,
        non_match: false,
        directory: false,
        inside: false,
        threads: false,
        depth: None,
        num_of_threads: None,
    };
    assert!(env.ignore_case);
}

#[test]
fn carriage_return_without_newline_stays_in_the_line() {
    let r = search_lines("x", "x\r", false, false).unwrap();
    assert_eq!(pairs(&r), vec![(1, "x\r".to_string())]);
}

#[test]
fn empty_lines_are_counted_and_reported() {
    let r = search_lines("z", "a\n\nb", false, true).unwrap();
    assert_eq!(
        pairs(&r),
        vec![(1, "a".to_string()), (2, "".to_string()), (3, "b".to_string())]
    );
}
