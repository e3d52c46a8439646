use sts2_sync_companion::deep_link::{pair_params, parse_pair_link, query_pairs, QueryPair};
use sts2_sync_companion::deep_link::deep_link_urls;
use sts2_sync_companion::text::{
    contains_text, same_text, split_on, split_once_on, strip_prefix_text, trim_end,
};
use sts2_sync_companion::commands::is_missing_entry;
use sts2_sync_companion::run_files::{is_run_entry, FolderEntry, PartKind, PathPart};

fn s(x: &str) -> String {
    x.to_string()
}

#[test]
fn trim_end_removes_every_trailing_slash() {
    assert_eq!(trim_end("https://dash.example///", '/'), "https://dash.example");
    assert_eq!(trim_end("https://dash.example", '/'), "https://dash.example");
    assert_eq!(trim_end("///", '/'), "");
    assert_eq!(trim_end("", '/'), "");
}

#[test]
fn split_on_keeps_empty_pieces() {
    assert_eq!(split_on("a&&b", '&'), vec![s("a"), s(""), s("b")]);
    assert_eq!(split_on("", '&'), vec![s("")]);
    assert_eq!(split_on("&", '&'), vec![s(""), s("")]);
    assert_eq!(split_on("code=1", '&'), vec![s("code=1")]);
}

#[test]
fn split_once_cuts_at_first_separator() {
    assert_eq!(split_once_on("url=https://x/?a=b", '='), (s("url"), Some(s("https://x/?a=b"))));
    assert_eq!(split_once_on("flag", '='), (s("flag"), None));
    assert_eq!(split_once_on("=v", '='), (s(""), Some(s("v"))));
}

#[test]
fn strip_prefix_and_contains_and_equality() {
    assert_eq!(strip_prefix_text("sts2sync://pair?code=1", "sts2sync://pair?"), Some(s("code=1")));
    assert_eq!(strip_prefix_text("sts2sync://other", "sts2sync://pair?"), None);
    assert_eq!(strip_prefix_text("sts2", "sts2sync://pair?"), None);
    assert!(contains_text("no entry found", "entry"));
    assert!(!contains_text("entr", "entry"));
    assert!(contains_text("abc", ""));
    assert!(same_text("héllo", "héllo"));
    assert!(!same_text("hello", "hellO"));
}

#[test]
fn lowercasing_decides_extension_and_keychain_checks() {
    let e = FolderEntry {
        components: vec![PathPart { kind: PartKind::Normal, fields: vec![b"x.RuN".to_vec()] }],
        is_file: true,
        extension: Some(s("RuN")),
    };
    assert!(is_run_entry(&e));
    assert!(is_missing_entry("NOT FOUND"));
    assert!(is_missing_entry("ÉTÉ: No Entry"));
}

#[test]
fn pair_link_values_are_percent_decoded() {
    assert_eq!(
        parse_pair_link("sts2sync://pair?code=a%20b%2Fc&url=plain+text"),
        Some((s("a b/c"), s("plain+text")))
    );
    assert_eq!(parse_pair_link("sts2sync://pair?code=100%&url=u"), Some((s("100%"), s("u"))));
    assert_eq!(parse_pair_link("sts2sync://pair?code=%FF&url=u"), None);
}

#[test]
fn pair_link_with_code_and_encoded_url() {
    let r = parse_pair_link("sts2sync://pair?code=ABC123&url=https%3A%2F%2Fdash.example%2F");
    assert_eq!(r, Some((s("ABC123"), s("https://dash.example/"))));
}

#[test]
fn pair_link_order_of_params_does_not_matter() {
    let r = parse_pair_link("sts2sync://pair?url=https://d.example&code=Z9");
    assert_eq!(r, Some((s("Z9"), s("https://d.example"))));
}

#[test]
fn pair_link_needs_both_params() {
    assert_eq!(parse_pair_link("sts2sync://pair?code=ABC"), None);
    assert_eq!(parse_pair_link("sts2sync://pair?url=https://d"), None);
    assert_eq!(parse_pair_link("sts2sync://pair?"), None);
    assert_eq!(parse_pair_link("sts2sync://pair?code&url"), None);
}

#[test]
fn pair_link_needs_the_prefix() {
    assert_eq!(parse_pair_link("https://pair?code=A&url=B"), None);
    assert_eq!(parse_pair_link("sts2sync://PAIR?code=A&url=B"), None);
}

#[test]
fn pair_link_later_params_win_and_bad_values_are_skipped() {
    assert_eq!(
        parse_pair_link("sts2sync://pair?code=a&code=b&url=u"),
        Some((s("b"), s("u")))
    );
    assert_eq!(
        parse_pair_link("sts2sync://pair?code=a&code=%FF&url=u"),
        Some((s("a"), s("u")))
    );
    assert_eq!(parse_pair_link("sts2sync://pair?code=%FF&url=u"), None);
}

#[test]
fn pair_link_value_keeps_later_equals_signs() {
    assert_eq!(
        parse_pair_link("sts2sync://pair?code=a=b&url=https://x/?q=1"),
        Some((s("a=b"), s("https://x/?q=1")))
    );
}

#[test]
fn query_pairs_are_undecoded() {
    let q = query_pairs("code=a%20b&flag");
    assert_eq!(q.len(), 2);
    assert_eq!(q[0].key, "code");
    assert_eq!(q[0].value, Some(s("a%20b")));
    assert_eq!(q[1].key, "flag");
    assert_eq!(q[1].value, None);
}

#[test]
fn pair_params_takes_last_present_values() {
    let entries = vec![
        QueryPair { key: s("url"), value: Some(s("first")) },
        QueryPair { key: s("code"), value: Some(s("c1")) },
        QueryPair { key: s("url"), value: None },
        QueryPair { key: s("url"), value: Some(s("second")) },
    ];
    assert_eq!(pair_params(&entries), Some((s("c1"), s("second"))));
    let only_url = vec![QueryPair { key: s("url"), value: Some(s("u")) }];
    assert_eq!(pair_params(&only_url), None);
}

#[test]
fn deep_link_payload_lists_urls() {
    assert_eq!(
        deep_link_urls("[\"sts2sync://pair?code=1&url=u\",\"x\"]"),
        vec![s("sts2sync://pair?code=1&url=u"), s("x")]
    );
    assert_eq!(deep_link_urls("[]"), Vec::<String>::new());
    assert_eq!(deep_link_urls("not json"), Vec::<String>::new());
    assert_eq!(deep_link_urls("[1,2]"), Vec::<String>::new());
}
