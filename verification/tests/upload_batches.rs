use sts2_sync_companion::upload::{
    ImportReply, ParsedRun, RunFile, UploadBatch, UploadResult, RUNS_PER_REQUEST,
};

fn s(x: &str) -> String {
    x.to_string()
}

fn good(path: &str, run: &str) -> ParsedRun {
    ParsedRun { path: s(path), run: Ok(s(run)) }
}

fn bad(path: &str, e: &str) -> ParsedRun {
    ParsedRun { path: s(path), run: Err(s(e)) }
}

fn reply(i: Option<u64>, d: Option<u64>, e: Option<u64>) -> ImportReply {
    ImportReply { imported: i, duplicates: d, errors: e }
}

fn statuses(r: &UploadResult) -> Vec<(String, String, Option<String>)> {
    r.files.iter().map(|f| (f.path.clone(), f.status.clone(), f.error.clone())).collect()
}

#[test]
fn unreadable_files_come_first_as_errors() {
    let b = UploadBatch::from_parsed(vec![good("a", "1"), bad("b", "boom"), good("c", "2")]);
    assert!(!b.is_done());
    assert_eq!(b.next_request(), Some(s("{\"runs\":[1,2]}")));
    let mut b = b;
    b.record_reply(&reply(Some(1), Some(1), Some(0)));
    assert!(b.is_done());
    assert_eq!(b.next_request(), None);
    let r = b.finish();
    assert_eq!((r.imported, r.duplicates, r.errors), (1, 1, 1));
    assert_eq!(
        statuses(&r),
        vec![
            (s("b"), s("error"), Some(s("Read/parse error: boom"))),
            (s("a"), s("uploaded"), None),
            (s("c"), s("duplicate"), None),
        ]
    );
}

#[test]
fn requests_carry_at_most_fifty_runs() {
    let parsed: Vec<ParsedRun> = (0..120).map(|i| good(&format!("f{i}"), &format!("{i}"))).collect();
    let mut b = UploadBatch::from_parsed(parsed);
    let mut sizes = Vec::new();
    while let Some(body) = b.next_request() {
        let inner = &body["{\"runs\":[".len()..body.len() - 2];
        sizes.push(inner.split(',').count());
        b.record_reply(&reply(Some(0), Some(0), Some(0)));
    }
    assert_eq!(sizes, vec![RUNS_PER_REQUEST, RUNS_PER_REQUEST, 20]);
    let r = b.finish();
    assert_eq!(r.files.len(), 120);
    assert!(r.files.iter().all(|f| f.status == "error"));
    assert_eq!(r.files[0].error, Some(s("Server reported error for this run")));
    assert_eq!(r.files[119].path, "f119");
}

#[test]
fn first_request_body_holds_the_first_fifty_runs_in_order() {
    let parsed: Vec<ParsedRun> = (0..51).map(|i| good(&format!("f{i}"), &format!("{i}"))).collect();
    let b = UploadBatch::from_parsed(parsed);
    let expected: Vec<String> = (0..50).map(|i| format!("{i}")).collect();
    assert_eq!(b.next_request(), Some(format!("{{\"runs\":[{}]}}", expected.join(","))));
}

#[test]
fn reply_counts_attribute_statuses_in_order() {
    let parsed: Vec<ParsedRun> = (0..5).map(|i| good(&format!("f{i}"), "{}")).collect();
    let mut b = UploadBatch::from_parsed(parsed);
    b.record_reply(&reply(Some(2), Some(2), Some(1)));
    let r = b.finish();
    let kinds: Vec<String> = r.files.iter().map(|f| f.status.clone()).collect();
    assert_eq!(kinds, vec![s("uploaded"), s("uploaded"), s("duplicate"), s("duplicate"), s("error")]);
    assert_eq!((r.imported, r.duplicates, r.errors), (2, 2, 1));
}

#[test]
fn reply_counts_larger_than_the_request_are_capped_in_statuses() {
    let parsed: Vec<ParsedRun> = (0..3).map(|i| good(&format!("f{i}"), "{}")).collect();
    let mut b = UploadBatch::from_parsed(parsed);
    b.record_reply(&reply(Some(7), Some(4), None));
    let r = b.finish();
    assert!(r.files.iter().all(|f| f.status == "uploaded"));
    assert_eq!((r.imported, r.duplicates, r.errors), (7, 4, 0));
}

#[test]
fn missing_reply_counts_are_zero() {
    let mut b = UploadBatch::from_parsed(vec![good("a", "1")]);
    b.record_reply(&reply(None, None, None));
    let r = b.finish();
    assert_eq!((r.imported, r.duplicates, r.errors), (0, 0, 0));
    assert_eq!(r.files[0].status, "error");
}

#[test]
fn reply_counts_are_cut_to_32_bits() {
    let mut b = UploadBatch::from_parsed(vec![good("a", "1")]);
    b.record_reply(&reply(Some((1u64 << 32) + 1), None, None));
    let r = b.finish();
    assert_eq!(r.imported, 1);
    assert_eq!(r.files[0].status, "uploaded");
}

#[test]
fn network_error_marks_the_whole_request() {
    let parsed: Vec<ParsedRun> = (0..52).map(|i| good(&format!("f{i}"), "1")).collect();
    let mut b = UploadBatch::from_parsed(parsed);
    assert!(b.failure_fits());
    b.record_network_error("connection refused");
    b.record_reply(&reply(Some(2), None, None));
    let r = b.finish();
    assert_eq!(r.errors, 50);
    assert_eq!(r.files[0].error, Some(s("Network error: connection refused")));
    assert_eq!(r.files[49].status, "error");
    assert_eq!(r.files[50].status, "uploaded");
    assert_eq!(r.files[51].status, "uploaded");
    assert_eq!(r.imported, 2);
}

#[test]
fn unreadable_reply_marks_the_whole_request() {
    let mut b = UploadBatch::from_parsed(vec![good("a", "1"), good("b", "2")]);
    b.record_unreadable_reply("502 Bad Gateway", "expected value at line 1 column 1");
    let r = b.finish();
    assert_eq!(r.errors, 2);
    assert_eq!(
        r.files[1].error,
        Some(s("Response parse error (HTTP 502 Bad Gateway): expected value at line 1 column 1"))
    );
}

#[test]
fn new_parses_file_contents() {
    let files = vec![
        RunFile { path: s("a.run"), contents: Ok(s("{ \"x\" : 1 }")) },
        RunFile { path: s("b.run"), contents: Err(s("permission denied")) },
        RunFile { path: s("c.run"), contents: Ok(s("{ broken")) },
    ];
    let b = UploadBatch::new(files);
    assert_eq!(b.next_request(), Some(s("{\"runs\":[{\"x\":1}]}")));
    let mut b = b;
    b.record_reply(&reply(Some(1), None, None));
    let r = b.finish();
    assert_eq!(r.errors, 2);
    assert_eq!(r.files[0].path, "b.run");
    assert_eq!(r.files[0].error, Some(s("Read/parse error: permission denied")));
    assert_eq!(r.files[1].path, "c.run");
    assert!(r.files[1].error.as_ref().unwrap().starts_with("Read/parse error: "));
    assert_eq!(r.files[2].path, "a.run");
    assert_eq!(r.files[2].status, "uploaded");
}

#[test]
fn nothing_to_send_is_done_at_once() {
    let b = UploadBatch::from_parsed(vec![bad("a", "x")]);
    assert!(b.is_done());
    assert_eq!(b.next_request(), None);
    let r = b.finish();
    assert_eq!(r.errors, 1);
    let e = UploadResult::empty();
    assert_eq!((e.imported, e.duplicates, e.errors, e.files.len()), (0, 0, 0, 0));
}

#[test]
fn overflowing_totals_are_detected_before_recording() {
    let parsed: Vec<ParsedRun> = (0..60).map(|i| good(&format!("f{i}"), "1")).collect();
    let mut b = UploadBatch::from_parsed(parsed);
    assert!(b.reply_fits(&reply(Some(u32::MAX as u64), None, None)));
    b.record_reply(&reply(Some(u32::MAX as u64), None, Some(u32::MAX as u64 - 5)));
    assert!(!b.reply_fits(&reply(Some(1), None, None)));
    assert!(b.reply_fits(&reply(Some(0), Some(9), Some(5))));
    assert!(!b.reply_fits(&reply(None, None, Some(6))));
    assert!(!b.failure_fits());
    b.record_reply(&reply(None, None, Some(5)));
    let r = b.finish();
    assert_eq!(r.imported, u32::MAX);
    assert_eq!(r.errors, u32::MAX);
}
