use covreport::report::{export_payload, aggregate, build_report, render_payload, render_document,
    ReadOutcome, ExportError};
use covreport::traces::{Trace, TraceMap};

fn store_one() -> TraceMap {
    let mut store = TraceMap::new();
    store.insert_file(
        "src/a.rs".to_string(),
        vec![
            Trace { line: 1, address: None, hits: 3 },
            Trace { line: 2, address: None, hits: 0 },
        ],
    );
    store
}

#[test]
fn scenario_single_file() {
    let store = store_one();
    let reads = vec![ReadOutcome::Content("fn a(){}\n".to_string())];
    let files = aggregate(&store, &reads).unwrap();
    assert_eq!(files.len(), 1);
    assert_eq!(files[0].path, vec!["src".to_string(), "a.rs".to_string()]);
    assert_eq!(files[0].content, "fn a(){}\n");
    assert_eq!(files[0].covered, 1);
    assert_eq!(files[0].coverable, 2);
    assert_eq!(files[0].traces.len(), 2);

    let payload = export_payload(&store, &reads).unwrap();
    let expected = "{\"files\":[{\"path\":[\"src\",\"a.rs\"],\"content\":\"fn a(){}\\n\",\
\"traces\":[{\"line\":1,\"address\":null,\"hits\":3},{\"line\":2,\"address\":null,\"hits\":0}],\
\"covered\":1,\"coverable\":2}]}";
    assert_eq!(payload, expected);

    let v: serde_json::Value = serde_json::from_str(&payload).unwrap();
    assert_eq!(v["files"][0]["path"][0].as_str(), Some("src"));
    assert_eq!(v["files"][0]["path"][1].as_str(), Some("a.rs"));
    assert_eq!(v["files"][0]["content"].as_str(), Some("fn a(){}\n"));
    assert_eq!(v["files"][0]["covered"].as_u64(), Some(1));
    assert_eq!(v["files"][0]["coverable"].as_u64(), Some(2));
    assert_eq!(v["files"][0]["traces"][0]["line"].as_u64(), Some(1));
    assert_eq!(v["files"][0]["traces"][0]["hits"].as_u64(), Some(3));
    assert!(v["files"][0]["traces"][0]["address"].is_null());
    assert_eq!(v["files"][0]["traces"][1]["hits"].as_u64(), Some(0));
}

#[test]
fn export_is_deterministic() {
    let store = store_one();
    let reads1 = vec![ReadOutcome::Content("fn a(){}\n".to_string())];
    let reads2 = vec![ReadOutcome::Content("fn a(){}\n".to_string())];
    let p1 = export_payload(&store, &reads1).unwrap();
    let p2 = export_payload(&store, &reads2).unwrap();
    assert_eq!(p1, p2);
}

#[test]
fn escaping_neutralizes_script_contexts() {
    let mut store = TraceMap::new();
    store.insert_file(
        "src/evil.rs".to_string(),
        vec![Trace { line: 1, address: None, hits: 1 }],
    );
    let content = "a</script><!--b<ScRiPt>c\u{2028}d\u{2029}e\"f\\g\th\r\ni\u{0}j\u{8}k\u{c}l";
    let reads = vec![ReadOutcome::Content(content.to_string())];
    let payload = export_payload(&store, &reads).unwrap();

    assert!(!payload.contains('<'));
    assert!(!payload.contains("</script"));
    assert!(!payload.contains("<!--"));
    assert!(!payload.contains('\u{2028}'));
    assert!(!payload.contains('\u{2029}'));

    let v: serde_json::Value = serde_json::from_str(&payload).unwrap();
    assert_eq!(v["files"][0]["content"].as_str(), Some(content));
}

#[test]
fn empty_store_yields_empty_document() {
    let store = TraceMap::new();
    let reads: Vec<ReadOutcome> = Vec::new();
    let payload = export_payload(&store, &reads).unwrap();
    assert_eq!(payload, "{\"files\":[]}");
}

#[test]
fn record_per_stored_path_exactly_once() {
    let mut store = TraceMap::new();
    store.insert_file(
        "src/b.rs".to_string(),
        vec![Trace { line: 4, address: Some(64), hits: 2 }],
    );
    store.insert_file("src/a.rs".to_string(), Vec::new());
    let reads = vec![
        ReadOutcome::Content("aaa".to_string()),
        ReadOutcome::Content("bbb".to_string()),
    ];
    let files = aggregate(&store, &reads).unwrap();
    assert_eq!(files.len(), 2);
    // store order is lexicographic, so src/a.rs comes first
    assert_eq!(files[0].path, vec!["src".to_string(), "a.rs".to_string()]);
    assert_eq!(files[0].coverable, 0);
    assert_eq!(files[0].covered, 0);
    assert!(files[0].traces.is_empty());
    assert_eq!(files[1].path, vec!["src".to_string(), "b.rs".to_string()]);
    let payload = export_payload(&store, &reads).unwrap();
    let v: serde_json::Value = serde_json::from_str(&payload).unwrap();
    assert_eq!(v["files"].as_array().unwrap().len(), 2);
    assert_eq!(v["files"][1]["traces"][0]["address"].as_u64(), Some(64));
    let expected = "{\"files\":[\
{\"path\":[\"src\",\"a.rs\"],\"content\":\"aaa\",\"traces\":[],\"covered\":0,\"coverable\":0},\
{\"path\":[\"src\",\"b.rs\"],\"content\":\"bbb\",\"traces\":[{\"line\":4,\"address\":64,\"hits\":2}],\"covered\":1,\"coverable\":1}]}";
    assert_eq!(payload, expected);
}

#[test]
fn failed_read_fails_whole_export() {
    let mut store = TraceMap::new();
    store.insert_file("src/a.rs".to_string(), vec![Trace { line: 1, address: None, hits: 1 }]);
    store.insert_file("src/b.rs".to_string(), vec![Trace { line: 1, address: None, hits: 1 }]);
    let reads = vec![
        ReadOutcome::Content("ok".to_string()),
        ReadOutcome::Failure("boom".to_string()),
    ];
    match export_payload(&store, &reads) {
        Err(ExportError::SourceRead(m)) => {
            assert_eq!(m, "Unable to read source file to string: src/b.rs: boom");
        }
        _ => panic!("expected a source read error"),
    }
}

#[test]
fn first_failing_read_names_its_path() {
    let mut store = TraceMap::new();
    store.insert_file("a.rs".to_string(), Vec::new());
    store.insert_file("b.rs".to_string(), Vec::new());
    let reads = vec![
        ReadOutcome::Failure("missing".to_string()),
        ReadOutcome::Failure("denied".to_string()),
    ];
    match export_payload(&store, &reads) {
        Err(ExportError::SourceRead(m)) => {
            assert_eq!(m, "Unable to read source file to string: a.rs: missing");
        }
        _ => panic!("expected a source read error"),
    }
}

#[test]
fn large_counts_encode_exactly() {
    let mut store = TraceMap::new();
    store.insert_file(
        "big.rs".to_string(),
        vec![Trace { line: u64::MAX, address: Some(u64::MAX), hits: u64::MAX }],
    );
    let reads = vec![ReadOutcome::Content(String::new())];
    let payload = export_payload(&store, &reads).unwrap();
    assert!(payload.contains("\"line\":18446744073709551615"));
    assert!(payload.contains("\"address\":18446744073709551615"));
    assert!(payload.contains("\"hits\":18446744073709551615"));
}

#[test]
fn render_document_embeds_payload_in_script_block() {
    let store = TraceMap::new();
    let reads: Vec<ReadOutcome> = Vec::new();
    let payload = export_payload(&store, &reads).unwrap();
    let doc = render_document("body{}", &payload, "render();");
    assert!(doc.starts_with("<!doctype html>"));
    assert!(doc.contains("<style>body{}</style>"));
    assert!(doc.contains("<script>var data = {\"files\":[]};</script>"));
    assert!(doc.contains("<script>render();</script>"));
    assert!(doc.ends_with("</body>\n</html>"));
}

#[test]
fn build_report_preserves_order() {
    let store = store_one();
    let reads = vec![ReadOutcome::Content("fn a(){}\n".to_string())];
    let files = aggregate(&store, &reads).unwrap();
    let report = build_report(files);
    assert_eq!(report.files.len(), 1);
    let payload = render_payload(&report);
    assert!(payload.starts_with("{\"files\":["));
}
