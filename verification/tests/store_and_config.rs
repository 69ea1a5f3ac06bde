use covreport::traces::{Trace, TraceMap};
use covreport::config::{Ci, OutputFile, Destination};
use covreport::paths::split_segments;

#[test]
fn store_orders_paths_lexicographically() {
    let mut store = TraceMap::new();
    store.insert_file("src/b.rs".to_string(), Vec::new());
    store.insert_file("src/a.rs".to_string(), Vec::new());
    store.insert_file("zzz.rs".to_string(), Vec::new());
    store.insert_file("a.rs".to_string(), Vec::new());
    assert_eq!(store.len(), 4);
    assert_eq!(store.path_at(0), "a.rs");
    assert_eq!(store.path_at(1), "src/a.rs");
    assert_eq!(store.path_at(2), "src/b.rs");
    assert_eq!(store.path_at(3), "zzz.rs");
}

#[test]
fn inserting_a_present_path_replaces_its_traces() {
    let mut store = TraceMap::new();
    store.insert_file("a.rs".to_string(), vec![Trace { line: 1, address: None, hits: 0 }]);
    store.insert_file(
        "a.rs".to_string(),
        vec![
            Trace { line: 1, address: None, hits: 5 },
            Trace { line: 2, address: None, hits: 0 },
        ],
    );
    assert_eq!(store.len(), 1);
    assert_eq!(store.coverable_in_path("a.rs"), 2);
    assert_eq!(store.covered_in_path("a.rs"), 1);
}

#[test]
fn per_path_counts() {
    let mut store = TraceMap::new();
    store.insert_file(
        "src/a.rs".to_string(),
        vec![
            Trace { line: 1, address: None, hits: 3 },
            Trace { line: 2, address: None, hits: 0 },
            Trace { line: 7, address: None, hits: 1 },
        ],
    );
    assert_eq!(store.covered_in_path("src/a.rs"), 2);
    assert_eq!(store.coverable_in_path("src/a.rs"), 3);
    assert_eq!(store.covered_in_path("absent.rs"), 0);
    assert_eq!(store.coverable_in_path("absent.rs"), 0);
    assert!(store.covered_in_path("src/a.rs") <= store.coverable_in_path("src/a.rs"));
}

#[test]
fn path_segments_split_on_separators() {
    assert_eq!(split_segments("src/a.rs"), vec!["src".to_string(), "a.rs".to_string()]);
    assert_eq!(split_segments("a.rs"), vec!["a.rs".to_string()]);
    assert_eq!(
        split_segments("/abs/dir/f.rs"),
        vec!["abs".to_string(), "dir".to_string(), "f.rs".to_string()]
    );
    assert_eq!(split_segments("src//x.rs"), vec!["src".to_string(), "x.rs".to_string()]);
    assert_eq!(split_segments(""), Vec::<String>::new());
}

#[test]
fn explicit_path_beats_default() {
    let of = OutputFile::from_path("custom.html");
    assert_eq!(of.resolve_or_else("coverage-report.html"), "custom.html");
    match of.resolve_or_stdout() {
        Destination::File(p) => assert_eq!(p, "custom.html"),
        Destination::Stdout => panic!("expected the explicit file"),
    }
}

#[test]
fn without_explicit_path_default_or_stream_is_used() {
    let of = OutputFile::default();
    assert_eq!(of.resolve_or_else("coverage-report.html"), "coverage-report.html");
    match of.resolve_or_stdout() {
        Destination::Stdout => {}
        Destination::File(_) => panic!("expected the stream, not a default file"),
    }
}

#[test]
fn ci_names_parse_to_their_services() {
    assert!(matches!(Ci::parse("circle-ci"), Ci::Circle));
    assert!(matches!(Ci::parse("codeship"), Ci::Codeship));
    assert!(matches!(Ci::parse("jenkins"), Ci::Jenkins));
    assert!(matches!(Ci::parse("semaphore"), Ci::Semaphore));
    assert!(matches!(Ci::parse("travis-ci"), Ci::Travis));
    assert!(matches!(Ci::parse("travis-pro"), Ci::TravisPro));
    match Ci::parse("coveralls-ruby") {
        Ci::Other(s) => assert_eq!(s, "coveralls-ruby"),
        _ => panic!("unknown names must be carried through"),
    }
}
