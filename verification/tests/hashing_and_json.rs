use sts2_sync_companion::digest::hash_file_contents;
use sts2_sync_companion::json::{frame_pair_body, pair_body, runs_request_body};
use sts2_sync_companion::upload::{RunFile, UploadBatch};

fn s(x: &str) -> String {
    x.to_string()
}

#[test]
fn hash_of_abc_is_the_sha256_test_vector() {
    assert_eq!(
        hash_file_contents(b"abc"),
        "ba7816bf8f01cfea414140de5dae2223b00361a396177a9cb410ff61f20015ad"
    );
}

#[test]
fn hash_of_empty_contents() {
    assert_eq!(
        hash_file_contents(b""),
        "e3b0c44298fc1c149afbf4c8996fb92427ae41e4649b934ca495991b7852b855"
    );
}

#[test]
fn hash_is_64_lower_hex_chars() {
    let h = hash_file_contents(b"{\"seed\":42}");
    assert_eq!(h.len(), 64);
    assert!(h.chars().all(|c| c.is_ascii_digit() || ('a'..='f').contains(&c)));
}

fn run(path: &str, text: &str) -> RunFile {
    RunFile { path: s(path), contents: Ok(s(text)) }
}

#[test]
fn runs_are_sent_compact_with_sorted_keys() {
    let b = UploadBatch::new(vec![run("a", "{ \"b\": 1,\n \"a\": [1, 2] }"), run("b", " true ")]);
    assert_eq!(b.next_request(), Some(s("{\"runs\":[{\"a\":[1,2],\"b\":1},true]}")));
}

#[test]
fn runs_that_do_not_parse_are_reported() {
    let b = UploadBatch::new(vec![run("a", "{\"a\": "), run("b", "")]);
    assert!(b.is_done());
    let r = b.finish();
    assert_eq!(r.errors, 2);
    for f in &r.files {
        let e = f.error.as_ref().unwrap();
        assert!(e.starts_with("Read/parse error: ") && e.len() > "Read/parse error: ".len());
    }
}

#[test]
fn pair_body_escapes_strings() {
    assert_eq!(pair_body("plain", "a\"b\\c\n"), "{\"code\":\"plain\",\"deviceName\":\"a\\\"b\\\\c\\n\"}");
}

#[test]
fn pair_body_is_compact_json_object() {
    assert_eq!(
        pair_body("AB\"C", "my-pc"),
        "{\"code\":\"AB\\\"C\",\"deviceName\":\"my-pc\"}"
    );
}

#[test]
fn runs_body_joins_the_chunk() {
    let runs = vec![s("{\"a\":1}"), s("[2]"), s("3"), s("4")];
    assert_eq!(runs_request_body(&runs, 1, 3), "{\"runs\":[[2],3]}");
    assert_eq!(runs_request_body(&runs, 0, 1), "{\"runs\":[{\"a\":1}]}");
}

#[test]
fn pair_body_frame_around_json_values() {
    assert_eq!(frame_pair_body("\"c\"", "\"n\""), "{\"code\":\"c\",\"deviceName\":\"n\"}");
}

#[test]
fn pair_body_escapes_control_characters() {
    assert_eq!(
        pair_body("\u{1}\t\u{8}\u{c}\r", "x\u{1f}é"),
        "{\"code\":\"\\u0001\\t\\b\\f\\r\",\"deviceName\":\"x\\u001fé\"}"
    );
}
