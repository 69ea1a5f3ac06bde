//! The report document: per-file records aggregated from the trace
//! store, their safe serialized payload, and the rendered artifact.

use vstd::prelude::*;
use crate::traces::{Trace, TraceMap, FileEntryV, covered_of, lemma_covered_of_bounds};
use crate::json::{
    json_string, escape_seq, unescape_json, dec_rep, push_json_string, push_u64, push_usize,
    no_lt, lemma_no_lt_concat, lemma_no_lt_json_string, lemma_no_lt_dec_rep,
    lemma_unescape_escape,
};
use crate::strutil::{push_str_chars, chars_to_string};
use vstd::string::StringExecFns;
use crate::paths::{segments_of, split_segments, strings_view};

verus! {

/// One per-file report entry: the path split into its segments, the file
/// text, the trace list snapshot, and the covered/coverable counts.
pub struct SourceFile {
    pub path: Vec<String>,
    pub content: String,
    pub traces: Vec<Trace>,
    pub covered: usize,
    pub coverable: usize,
}

/// The mathematical value of a [`SourceFile`].
pub ghost struct SourceFileV {
    pub path: Seq<Seq<char>>,
    pub content: Seq<char>,
    pub traces: Seq<Trace>,
    pub covered: int,
    pub coverable: int,
}

impl View for SourceFile {
    type V = SourceFileV;

    open spec fn view(&self) -> SourceFileV {
        SourceFileV {
            path: strings_view(self.path@),
            content: self.content@,
            traces: self.traces@,
            covered: self.covered as int,
            coverable: self.coverable as int,
        }
    }
}

/// The values of a record sequence.
pub open spec fn files_view(files: Seq<SourceFile>) -> Seq<SourceFileV> {
    files.map_values(|f: SourceFile| f@)
}

/// The whole report document: one record per stored path, in store order.
pub struct CoverageReport {
    pub files: Vec<SourceFile>,
}

impl View for CoverageReport {
    type V = Seq<SourceFileV>;

    open spec fn view(&self) -> Seq<SourceFileV> {
        files_view(self.files@)
    }
}

// ------------------------------------------------------------------
// The encoded payload, as a mathematical function of the document.
// ------------------------------------------------------------------

/// An optional address encodes as a number or `null`.
pub open spec fn json_address(a: Option<u64>) -> Seq<char> {
    match a {
        Option::None => "null"@,
        Option::Some(v) => dec_rep(v as nat),
    }
}

/// The encoding of one trace fact.
pub open spec fn json_trace(t: Trace) -> Seq<char> {
    "{\"line\":"@ + dec_rep(t.line as nat) + ",\"address\":"@ + json_address(t.address)
        + ",\"hits\":"@ + dec_rep(t.hits as nat) + "}"@
}

/// Comma-joined encodings of a trace list.
pub open spec fn json_traces_body(ts: Seq<Trace>) -> Seq<char>
    decreases ts.len(),
{
    if ts.len() == 0 {
        Seq::empty()
    } else if ts.len() == 1 {
        json_trace(ts[0])
    } else {
        json_traces_body(ts.drop_last()) + seq![','] + json_trace(ts.last())
    }
}

/// Comma-joined encodings of a string list.
pub open spec fn json_strings_body(ss: Seq<Seq<char>>) -> Seq<char>
    decreases ss.len(),
{
    if ss.len() == 0 {
        Seq::empty()
    } else if ss.len() == 1 {
        json_string(ss[0])
    } else {
        json_strings_body(ss.drop_last()) + seq![','] + json_string(ss.last())
    }
}

/// The encoding of one record.
pub open spec fn json_file(f: SourceFileV) -> Seq<char> {
    "{\"path\":["@ + json_strings_body(f.path) + "],\"content\":"@ + json_string(f.content)
        + ",\"traces\":["@ + json_traces_body(f.traces) + "],\"covered\":"@ + dec_rep(
        f.covered as nat,
    ) + ",\"coverable\":"@ + dec_rep(f.coverable as nat) + "}"@
}

/// Comma-joined encodings of the records.
pub open spec fn json_files_body(fs: Seq<SourceFileV>) -> Seq<char>
    decreases fs.len(),
{
    if fs.len() == 0 {
        Seq::empty()
    } else if fs.len() == 1 {
        json_file(fs[0])
    } else {
        json_files_body(fs.drop_last()) + seq![','] + json_file(fs.last())
    }
}

/// The complete payload of a document.
pub open spec fn json_report(fs: Seq<SourceFileV>) -> Seq<char> {
    "{\"files\":["@ + json_files_body(fs) + "]}"@
}

// ------------------------------------------------------------------
// The verified encoder.
// ------------------------------------------------------------------

fn push_address(out: &mut Vec<char>, a: &Option<u64>)
    ensures
        final(out)@ == old(out)@ + json_address(*a),
{
    match a {
        Option::Some(v) => push_u64(out, *v),
        Option::None => push_str_chars(out, "null"),
    }
}

fn push_trace(out: &mut Vec<char>, t: &Trace)
    ensures
        final(out)@ == old(out)@ + json_trace(*t),
{
    push_str_chars(out, "{\"line\":");
    push_u64(out, t.line);
    push_str_chars(out, ",\"address\":");
    push_address(out, &t.address);
    push_str_chars(out, ",\"hits\":");
    push_u64(out, t.hits);
    push_str_chars(out, "}");
    proof {
        assert(out@ =~= old(out)@ + json_trace(*t));
    }
}

fn push_traces_array(out: &mut Vec<char>, ts: &Vec<Trace>)
    ensures
        final(out)@ == old(out)@ + json_traces_body(ts@),
{
    let n: usize = ts.len();
    let mut i: usize = 0;
    proof {
        assert(ts@.take(0) =~= Seq::<Trace>::empty());
        assert(out@ =~= old(out)@ + json_traces_body(ts@.take(0)));
    }
    while i < n
        invariant
            i <= n,
            n == ts@.len(),
            out@ == old(out)@ + json_traces_body(ts@.take(i as int)),
        decreases n - i,
    {
        if i > 0 {
            out.push(',');
        }
        push_trace(out, &ts[i]);
        proof {
            assert(ts@.take(i + 1).drop_last() =~= ts@.take(i as int));
            assert(ts@.take(i + 1).last() == ts@[i as int]);
            assert(out@ =~= old(out)@ + json_traces_body(ts@.take(i + 1)));
        }
        i = i + 1;
    }
    proof {
        assert(ts@.take(n as int) =~= ts@);
    }
}

fn push_strings_array(out: &mut Vec<char>, ss: &Vec<String>)
    ensures
        final(out)@ == old(out)@ + json_strings_body(strings_view(ss@)),
{
    let n: usize = ss.len();
    let mut i: usize = 0;
    proof {
        assert(strings_view(ss@).take(0) =~= Seq::<Seq<char>>::empty());
        assert(out@ =~= old(out)@ + json_strings_body(strings_view(ss@).take(0)));
    }
    while i < n
        invariant
            i <= n,
            n == ss@.len(),
            n == strings_view(ss@).len(),
            out@ == old(out)@ + json_strings_body(strings_view(ss@).take(i as int)),
        decreases n - i,
    {
        if i > 0 {
            out.push(',');
        }
        push_json_string(out, ss[i].as_str());
        proof {
            let sv = strings_view(ss@);
            assert(sv[i as int] == ss@[i as int]@);
            assert(sv.take(i + 1).drop_last() =~= sv.take(i as int));
            assert(sv.take(i + 1).last() == sv[i as int]);
            assert(out@ =~= old(out)@ + json_strings_body(sv.take(i + 1)));
        }
        i = i + 1;
    }
    proof {
        assert(strings_view(ss@).take(n as int) =~= strings_view(ss@));
    }
}

fn push_file(out: &mut Vec<char>, f: &SourceFile)
    ensures
        final(out)@ == old(out)@ + json_file(f@),
{
    push_str_chars(out, "{\"path\":[");
    push_strings_array(out, &f.path);
    push_str_chars(out, "],\"content\":");
    push_json_string(out, f.content.as_str());
    push_str_chars(out, ",\"traces\":[");
    push_traces_array(out, &f.traces);
    push_str_chars(out, "],\"covered\":");
    push_usize(out, f.covered);
    push_str_chars(out, ",\"coverable\":");
    push_usize(out, f.coverable);
    push_str_chars(out, "}");
    proof {
        assert(out@ =~= old(out)@ + json_file(f@));
    }
}

/// Serializes the document into its embeddable payload. The payload is a
/// pure function of the document value, so equal documents always give
/// byte-identical payloads.
pub fn render_payload(report: &CoverageReport) -> (r: String)
    ensures
        r@ == json_report(report@),
{
    let mut out: Vec<char> = Vec::new();
    push_str_chars(&mut out, "{\"files\":[");
    let n: usize = report.files.len();
    let mut i: usize = 0;
    proof {
        assert(report@.take(0) =~= Seq::<SourceFileV>::empty());
        assert(out@ =~= "{\"files\":["@ + json_files_body(report@.take(0)));
    }
    while i < n
        invariant
            i <= n,
            n == report.files@.len(),
            n == report@.len(),
            out@ == "{\"files\":["@ + json_files_body(report@.take(i as int)),
        decreases n - i,
    {
        if i > 0 {
            out.push(',');
        }
        push_file(&mut out, &report.files[i]);
        proof {
            assert(report@[i as int] == report.files@[i as int]@);
            assert(report@.take(i + 1).drop_last() =~= report@.take(i as int));
            assert(report@.take(i + 1).last() == report@[i as int]);
            assert(out@ =~= "{\"files\":["@ + json_files_body(report@.take(i + 1)));
        }
        i = i + 1;
    }
    push_str_chars(&mut out, "]}");
    proof {
        assert(report@.take(n as int) =~= report@);
        assert(out@ =~= json_report(report@));
    }
    chars_to_string(&out)
}

// ------------------------------------------------------------------
// Aggregation: joining the store with the file texts.
// ------------------------------------------------------------------

/// What reading one referenced source file produced: its full text, or
/// the cause of the failure.
#[derive(Debug)]
pub enum ReadOutcome {
    Content(String),
    Failure(String),
}

/// Why an export failed: a source file could not be read, or the
/// resolved destination could not be opened or written.
#[derive(Debug)]
pub enum ExportError {
    SourceRead(String),
    Destination(String),
}

pub open spec fn read_ok(r: ReadOutcome) -> bool {
    match r {
        ReadOutcome::Content(_) => true,
        ReadOutcome::Failure(_) => false,
    }
}

pub open spec fn content_of(r: ReadOutcome) -> Seq<char> {
    match r {
        ReadOutcome::Content(s) => s@,
        ReadOutcome::Failure(_) => Seq::empty(),
    }
}

pub open spec fn cause_of(r: ReadOutcome) -> Seq<char> {
    match r {
        ReadOutcome::Content(_) => Seq::empty(),
        ReadOutcome::Failure(c) => c@,
    }
}

pub open spec fn all_reads_ok(reads: Seq<ReadOutcome>) -> bool {
    forall|i: int| 0 <= i < reads.len() ==> read_ok(#[trigger] reads[i])
}

/// The error text for an unreadable source file: the path and the cause.
pub open spec fn source_read_msg(path: Seq<char>, cause: Seq<char>) -> Seq<char> {
    "Unable to read source file to string: "@ + path + ": "@ + cause
}

/// The record owed to each stored path, given the text read for it.
pub open spec fn spec_records(entries: Seq<FileEntryV>, reads: Seq<ReadOutcome>) -> Seq<
    SourceFileV,
> {
    Seq::new(
        entries.len(),
        |i: int|
            SourceFileV {
                path: segments_of(entries[i].path),
                content: content_of(reads[i]),
                traces: entries[i].traces,
                covered: covered_of(entries[i].traces),
                coverable: entries[i].traces.len() as int,
            },
    )
}

/// A verbatim snapshot of a trace list.
fn copy_traces(ts: &Vec<Trace>) -> (r: Vec<Trace>)
    ensures
        r@ == ts@,
{
    let n: usize = ts.len();
    let mut r: Vec<Trace> = Vec::new();
    let mut i: usize = 0;
    while i < n
        invariant
            i <= n,
            n == ts@.len(),
            r@ == ts@.take(i as int),
        decreases n - i,
    {
        r.push(ts[i]);
        proof {
            assert(ts@.take(i + 1) =~= ts@.take(i as int).push(ts@[i as int]));
        }
        i = i + 1;
    }
    proof {
        assert(ts@.take(n as int) =~= ts@);
    }
    r
}

/// Builds one record per stored path, in store order, joining each trace
/// list with the text read for that path. Fails on the first unreadable
/// file, identifying its path and the underlying cause; no partial
/// record list is returned.
pub fn aggregate(coverage_data: &TraceMap, reads: &Vec<ReadOutcome>) -> (r: Result<
    Vec<SourceFile>,
    ExportError,
>)
    requires
        coverage_data.wf(),
        reads@.len() == coverage_data@.len(),
    ensures
        match r {
            Ok(files) => all_reads_ok(reads@) && files_view(files@) == spec_records(
                coverage_data@,
                reads@,
            ),
            Err(e) => !all_reads_ok(reads@) && match e {
                ExportError::SourceRead(m) => exists|k: int|
                    0 <= k < reads@.len() && !read_ok(#[trigger] reads@[k]) && (forall|j: int|
                        0 <= j < k ==> read_ok(#[trigger] reads@[j])) && m@ == source_read_msg(
                        coverage_data@[k].path,
                        cause_of(reads@[k]),
                    ),
                ExportError::Destination(_) => false,
            },
        },
{
    let n: usize = coverage_data.len();
    let mut files: Vec<SourceFile> = Vec::new();
    let mut i: usize = 0;
    proof {
        assert(files_view(files@) =~= spec_records(coverage_data@, reads@).take(0));
    }
    while i < n
        invariant
            coverage_data.wf(),
            i <= n,
            n == coverage_data@.len(),
            reads@.len() == n,
            forall|j: int| 0 <= j < i ==> read_ok(#[trigger] reads@[j]),
            files_view(files@) == spec_records(coverage_data@, reads@).take(i as int),
        decreases n - i,
    {
        let path = coverage_data.path_at(i);
        match &reads[i] {
            ReadOutcome::Content(text) => {
                let segs = split_segments(path.as_str());
                let content = text.clone();
                let traces = copy_traces(coverage_data.traces_at(i));
                let covered = coverage_data.covered_at(i);
                let coverable = coverage_data.coverable_at(i);
                let ghost pre = files@;
                files.push(SourceFile { path: segs, content, traces, covered, coverable });
                proof {
                    let sr = spec_records(coverage_data@, reads@);
                    assert(files@.last()@ == sr[i as int]);
                    assert(files_view(files@) =~= files_view(pre).push(files@.last()@));
                    assert(sr.take(i + 1) =~= sr.take(i as int).push(sr[i as int]));
                }
                i = i + 1;
            },
            ReadOutcome::Failure(cause) => {
                let mut m = "Unable to read source file to string: ".to_owned();
                m.append(path.as_str());
                m.append(": ");
                m.append(cause.as_str());
                proof {
                    assert(!read_ok(reads@[i as int]));
                    assert(m@ =~= source_read_msg(coverage_data@[i as int].path, cause_of(
                        reads@[i as int],
                    )));
                    assert(exists|k: int|
                        0 <= k < reads@.len() && !read_ok(#[trigger] reads@[k]) && (forall|j: int|
                            0 <= j < k ==> read_ok(#[trigger] reads@[j])) && m@ == source_read_msg(
                            coverage_data@[k].path,
                            cause_of(reads@[k]),
                        ));
                }
                return Err(ExportError::SourceRead(m));
            },
        }
    }
    proof {
        assert(spec_records(coverage_data@, reads@).take(n as int) =~= spec_records(
            coverage_data@,
            reads@,
        ));
    }
    Ok(files)
}

/// Folds the records into the single document root, preserving their
/// order; the seam where document-wide summary fields would be added.
pub fn build_report(files: Vec<SourceFile>) -> (r: CoverageReport)
    ensures
        r.files@ == files@,
        r@ == files_view(files@),
{
    CoverageReport { files }
}

/// The whole computation of one export: aggregate the store with the
/// read outcomes, build the document, and serialize it safely. Returns
/// the payload exactly when every referenced file was read; fails on the
/// first unreadable file without producing any partial payload.
pub fn export_payload(coverage_data: &TraceMap, reads: &Vec<ReadOutcome>) -> (r: Result<
    String,
    ExportError,
>)
    requires
        coverage_data.wf(),
        reads@.len() == coverage_data@.len(),
    ensures
        match r {
            Ok(p) => all_reads_ok(reads@) && p@ == json_report(
                spec_records(coverage_data@, reads@),
            ),
            Err(e) => !all_reads_ok(reads@) && match e {
                ExportError::SourceRead(m) => exists|k: int|
                    0 <= k < reads@.len() && !read_ok(#[trigger] reads@[k]) && (forall|j: int|
                        0 <= j < k ==> read_ok(#[trigger] reads@[j])) && m@ == source_read_msg(
                        coverage_data@[k].path,
                        cause_of(reads@[k]),
                    ),
                ExportError::Destination(_) => false,
            },
        },
{
    match aggregate(coverage_data, reads) {
        Ok(files) => {
            let report = build_report(files);
            Ok(render_payload(&report))
        },
        Err(e) => Err(e),
    }
}

// ------------------------------------------------------------------
// The rendered artifact.
// ------------------------------------------------------------------

/// The complete document: stylesheet, payload embedded in a script
/// block, and the viewer shell, around fixed markup.
pub open spec fn document_of(css: Seq<char>, payload: Seq<char>, js: Seq<char>) -> Seq<char> {
    "<!doctype html>\n<html>\n<head>\n    <meta charset=\"utf-8\">\n    <style>"@ + css
        + "</style>\n</head>\n<body>\n    <div id=\"root\"></div>\n    <script>var data = "@
        + payload
        + ";</script>\n    <script crossorigin src=\"https://unpkg.com/react@16/umd/react.production.min.js\"></script>\n    <script crossorigin src=\"https://unpkg.com/react-dom@16/umd/react-dom.production.min.js\"></script>\n    <script>"@
        + js + "</script>\n</body>\n</html>"@
}

/// Assembles the final artifact around the serialized payload.
pub fn render_document(stylesheet: &str, payload: &str, viewer: &str) -> (r: String)
    ensures
        r@ == document_of(stylesheet@, payload@, viewer@),
{
    let mut out: Vec<char> = Vec::new();
    push_str_chars(
        &mut out,
        "<!doctype html>\n<html>\n<head>\n    <meta charset=\"utf-8\">\n    <style>",
    );
    push_str_chars(&mut out, stylesheet);
    push_str_chars(
        &mut out,
        "</style>\n</head>\n<body>\n    <div id=\"root\"></div>\n    <script>var data = ",
    );
    push_str_chars(&mut out, payload);
    push_str_chars(
        &mut out,
        ";</script>\n    <script crossorigin src=\"https://unpkg.com/react@16/umd/react.production.min.js\"></script>\n    <script crossorigin src=\"https://unpkg.com/react-dom@16/umd/react-dom.production.min.js\"></script>\n    <script>",
    );
    push_str_chars(&mut out, viewer);
    push_str_chars(&mut out, "</script>\n</body>\n</html>");
    proof {
        assert(out@ =~= document_of(stylesheet@, payload@, viewer@));
    }
    chars_to_string(&out)
}

// ------------------------------------------------------------------
// Laws of the payload.
// ------------------------------------------------------------------

proof fn lemma_no_lt_json_address(a: Option<u64>)
    ensures
        no_lt(json_address(a)),
{
    reveal_strlit("null");
    match a {
        Option::None => {
            assert(no_lt("null"@));
        },
        Option::Some(v) => {
            lemma_no_lt_dec_rep(v as nat);
        },
    }
}

proof fn lemma_no_lt_json_trace(t: Trace)
    ensures
        no_lt(json_trace(t)),
{
    reveal_strlit("{\"line\":");
    reveal_strlit(",\"address\":");
    reveal_strlit(",\"hits\":");
    reveal_strlit("}");
    assert(no_lt("{\"line\":"@));
    assert(no_lt(",\"address\":"@));
    assert(no_lt(",\"hits\":"@));
    assert(no_lt("}"@));
    lemma_no_lt_dec_rep(t.line as nat);
    lemma_no_lt_dec_rep(t.hits as nat);
    lemma_no_lt_json_address(t.address);
    let p1 = "{\"line\":"@ + dec_rep(t.line as nat);
    lemma_no_lt_concat("{\"line\":"@, dec_rep(t.line as nat));
    let p2 = p1 + ",\"address\":"@;
    lemma_no_lt_concat(p1, ",\"address\":"@);
    let p3 = p2 + json_address(t.address);
    lemma_no_lt_concat(p2, json_address(t.address));
    let p4 = p3 + ",\"hits\":"@;
    lemma_no_lt_concat(p3, ",\"hits\":"@);
    let p5 = p4 + dec_rep(t.hits as nat);
    lemma_no_lt_concat(p4, dec_rep(t.hits as nat));
    lemma_no_lt_concat(p5, "}"@);
}

proof fn lemma_no_lt_json_traces_body(ts: Seq<Trace>)
    ensures
        no_lt(json_traces_body(ts)),
    decreases ts.len(),
{
    if ts.len() == 0 {
    } else if ts.len() == 1 {
        lemma_no_lt_json_trace(ts[0]);
    } else {
        lemma_no_lt_json_traces_body(ts.drop_last());
        lemma_no_lt_json_trace(ts.last());
        assert(seq![','][0] == ',');
        assert(no_lt(seq![',']));
        lemma_no_lt_concat(json_traces_body(ts.drop_last()), seq![',']);
        lemma_no_lt_concat(json_traces_body(ts.drop_last()) + seq![','], json_trace(ts.last()));
    }
}

proof fn lemma_no_lt_json_strings_body(ss: Seq<Seq<char>>)
    ensures
        no_lt(json_strings_body(ss)),
    decreases ss.len(),
{
    if ss.len() == 0 {
    } else if ss.len() == 1 {
        lemma_no_lt_json_string(ss[0]);
    } else {
        lemma_no_lt_json_strings_body(ss.drop_last());
        lemma_no_lt_json_string(ss.last());
        assert(seq![','][0] == ',');
        assert(no_lt(seq![',']));
        lemma_no_lt_concat(json_strings_body(ss.drop_last()), seq![',']);
        lemma_no_lt_concat(json_strings_body(ss.drop_last()) + seq![','], json_string(ss.last()));
    }
}

proof fn lemma_no_lt_json_file(f: SourceFileV)
    ensures
        no_lt(json_file(f)),
{
    reveal_strlit("{\"path\":[");
    reveal_strlit("],\"content\":");
    reveal_strlit(",\"traces\":[");
    reveal_strlit("],\"covered\":");
    reveal_strlit(",\"coverable\":");
    reveal_strlit("}");
    assert(no_lt("{\"path\":["@));
    assert(no_lt("],\"content\":"@));
    assert(no_lt(",\"traces\":["@));
    assert(no_lt("],\"covered\":"@));
    assert(no_lt(",\"coverable\":"@));
    assert(no_lt("}"@));
    lemma_no_lt_json_strings_body(f.path);
    lemma_no_lt_json_string(f.content);
    lemma_no_lt_json_traces_body(f.traces);
    lemma_no_lt_dec_rep(f.covered as nat);
    lemma_no_lt_dec_rep(f.coverable as nat);
    let p1 = "{\"path\":["@ + json_strings_body(f.path);
    lemma_no_lt_concat("{\"path\":["@, json_strings_body(f.path));
    let p2 = p1 + "],\"content\":"@;
    lemma_no_lt_concat(p1, "],\"content\":"@);
    let p3 = p2 + json_string(f.content);
    lemma_no_lt_concat(p2, json_string(f.content));
    let p4 = p3 + ",\"traces\":["@;
    lemma_no_lt_concat(p3, ",\"traces\":["@);
    let p5 = p4 + json_traces_body(f.traces);
    lemma_no_lt_concat(p4, json_traces_body(f.traces));
    let p6 = p5 + "],\"covered\":"@;
    lemma_no_lt_concat(p5, "],\"covered\":"@);
    let p7 = p6 + dec_rep(f.covered as nat);
    lemma_no_lt_concat(p6, dec_rep(f.covered as nat));
    let p8 = p7 + ",\"coverable\":"@;
    lemma_no_lt_concat(p7, ",\"coverable\":"@);
    let p9 = p8 + dec_rep(f.coverable as nat);
    lemma_no_lt_concat(p8, dec_rep(f.coverable as nat));
    lemma_no_lt_concat(p9, "}"@);
}

proof fn lemma_no_lt_json_files_body(fs: Seq<SourceFileV>)
    ensures
        no_lt(json_files_body(fs)),
    decreases fs.len(),
{
    if fs.len() == 0 {
    } else if fs.len() == 1 {
        lemma_no_lt_json_file(fs[0]);
    } else {
        lemma_no_lt_json_files_body(fs.drop_last());
        lemma_no_lt_json_file(fs.last());
        assert(seq![','][0] == ',');
        assert(no_lt(seq![',']));
        lemma_no_lt_concat(json_files_body(fs.drop_last()), seq![',']);
        lemma_no_lt_concat(json_files_body(fs.drop_last()) + seq![','], json_file(fs.last()));
    }
}

/// Escaping safety: the serialized payload of any document contains no
/// `<` character at all, whatever the source files held.
pub proof fn lemma_payload_no_lt(fs: Seq<SourceFileV>)
    ensures
        no_lt(json_report(fs)),
{
    reveal_strlit("{\"files\":[");
    reveal_strlit("]}");
    assert(no_lt("{\"files\":["@));
    assert(no_lt("]}"@));
    lemma_no_lt_json_files_body(fs);
    lemma_no_lt_concat("{\"files\":["@, json_files_body(fs));
    lemma_no_lt_concat("{\"files\":["@ + json_files_body(fs), "]}"@);
}

/// No sequence that begins with `<` — in particular the closing-script
/// tag in any letter case, or the comment-open sequence — occurs anywhere
/// in the payload.
pub proof fn lemma_payload_embeds_safely(fs: Seq<SourceFileV>, s: Seq<char>, i: int)
    requires
        s.len() > 0,
        s[0] == '<',
        0 <= i,
        i + s.len() <= json_report(fs).len(),
    ensures
        json_report(fs).subrange(i, i + s.len()) != s,
{
    lemma_payload_no_lt(fs);
    if json_report(fs).subrange(i, i + s.len()) == s {
        assert(json_report(fs).subrange(i, i + s.len())[0] == json_report(fs)[i]);
        assert(json_report(fs)[i] != '<');
    }
}

/// Round trip: the encoded body of a record's file content, run back
/// through the string decoder, reproduces that content exactly.
pub proof fn lemma_content_round_trip(f: SourceFileV)
    ensures
        unescape_json(escape_seq(f.content)) == Some(f.content),
{
    lemma_unescape_escape(f.content);
}

/// Determinism: the payload is a function of the store value and the
/// read file texts alone, so two exports over equal inputs produce
/// identical payloads.
pub proof fn lemma_export_deterministic(
    e1: Seq<FileEntryV>,
    r1: Seq<ReadOutcome>,
    e2: Seq<FileEntryV>,
    r2: Seq<ReadOutcome>,
)
    requires
        e1 == e2,
        r1 == r2,
    ensures
        json_report(spec_records(e1, r1)) == json_report(spec_records(e2, r2)),
{
}

/// Count invariant: every record owed to a store satisfies
/// `0 <= covered <= coverable == len(traces)`.
pub proof fn lemma_record_counts(entries: Seq<FileEntryV>, reads: Seq<ReadOutcome>, i: int)
    requires
        0 <= i < entries.len(),
    ensures
        0 <= spec_records(entries, reads)[i].covered,
        spec_records(entries, reads)[i].covered <= spec_records(entries, reads)[i].coverable,
        spec_records(entries, reads)[i].coverable == spec_records(entries, reads)[i].traces.len(),
{
    lemma_covered_of_bounds(entries[i].traces);
}

/// Path correspondence: the document holds exactly one record per stored
/// path, in store order, each carrying that path's segments, text and
/// trace snapshot; a path absent from the store yields no record.
pub proof fn lemma_document_paths(entries: Seq<FileEntryV>, reads: Seq<ReadOutcome>)
    ensures
        spec_records(entries, reads).len() == entries.len(),
        forall|i: int|
            0 <= i < entries.len() ==> (#[trigger] spec_records(entries, reads)[i]).path
                == segments_of(entries[i].path),
        forall|i: int|
            0 <= i < entries.len() ==> (#[trigger] spec_records(entries, reads)[i]).traces
                == entries[i].traces,
        forall|i: int|
            0 <= i < entries.len() ==> (#[trigger] spec_records(entries, reads)[i]).content
                == content_of(reads[i]),
{
}

} // verus!
