use sts2_sync_companion::commands::{
    bearer, device_name, file_manager, import_endpoint, is_missing_entry, keychain_error,
    keychain_removal, mentions_missing_entry, network_error, pair_credentials, pair_endpoint, pair_http_failure,
    pair_parse_error, record_uploaded, run_dirs_choice, run_folder, select_new_files,
    sync_preflight, token_lookup, HashedFile, PairReply, RunDirs,
};
use sts2_sync_companion::config::AppConfig;
use sts2_sync_companion::run_files::{
    default_run_dirs, is_run_entry, path_less, select_run_files, FolderEntry, PartKind, PathPart,
    TargetOs,
};
use sts2_sync_companion::upload::{ParsedRun, RunFileStatus, UploadBatch, UploadResult};

fn s(x: &str) -> String {
    x.to_string()
}

fn v(xs: &[&str]) -> Vec<String> {
    xs.iter().map(|x| x.to_string()).collect()
}

fn paired(url: &str) -> AppConfig {
    AppConfig::new(s(url), Some(s("dev-1")), None, true, vec![])
}

#[test]
fn default_dirs_on_windows() {
    let dirs = default_run_dirs(
        TargetOs::Windows,
        Some(s("C:\\Users\\me\\AppData\\Roaming")),
        Some(s("C:\\Users\\me\\AppData\\Local")),
        Some(s("C:\\Users\\me")),
    );
    assert_eq!(
        dirs,
        vec![
            (s("C:\\Users\\me\\AppData\\Roaming"), v(&["SlayTheSpire2", "steam", "history"])),
            (s("C:\\Users\\me\\AppData\\Local"), v(&["SlayTheSpire2", "steam", "history"])),
            (s("C:\\Users\\me"), v(&["AppData", "LocalLow", "Mega Crit", "SlayTheSpire2", "steam", "history"])),
        ]
    );
}

#[test]
fn default_dirs_skip_missing_bases() {
    let dirs = default_run_dirs(TargetOs::Windows, None, Some(s("L")), None);
    assert_eq!(dirs, vec![(s("L"), v(&["SlayTheSpire2", "steam", "history"]))]);
    assert!(default_run_dirs(TargetOs::Linux, Some(s("d")), Some(s("l")), None).is_empty());
}

#[test]
fn default_dirs_on_macos_linux_and_others() {
    assert_eq!(
        default_run_dirs(TargetOs::MacOs, None, None, Some(s("/Users/me"))),
        vec![(s("/Users/me"), v(&["Library", "Application Support", "SlayTheSpire2", "steam", "history"]))]
    );
    assert_eq!(
        default_run_dirs(TargetOs::Linux, None, None, Some(s("/home/me"))),
        vec![(s("/home/me"), v(&[".local", "share", "SlayTheSpire2", "steam", "history"]))]
    );
    assert!(default_run_dirs(TargetOs::Other, Some(s("a")), Some(s("b")), Some(s("c"))).is_empty());
}

fn name(x: &str) -> PathPart {
    PathPart { kind: PartKind::Normal, fields: vec![x.as_bytes().to_vec()] }
}

fn root() -> PathPart {
    PathPart { kind: PartKind::RootDir, fields: vec![] }
}

fn cur() -> PathPart {
    PathPart { kind: PartKind::CurDir, fields: vec![] }
}

fn parent() -> PathPart {
    PathPart { kind: PartKind::ParentDir, fields: vec![] }
}

fn disk(letter: u8) -> PathPart {
    PathPart { kind: PartKind::Prefix(5), fields: vec![vec![letter]] }
}

fn names(parts: &[&str]) -> Vec<PathPart> {
    parts.iter().map(|p| name(p)).collect()
}

fn entry(parts: &[&str], is_file: bool, ext: Option<&str>) -> FolderEntry {
    FolderEntry { components: names(parts), is_file, extension: ext.map(s) }
}

#[test]
fn run_entries_by_extension_any_case() {
    assert!(is_run_entry(&entry(&["a.run"], true, Some("run"))));
    assert!(is_run_entry(&entry(&["a.RUN"], true, Some("RUN"))));
    assert!(is_run_entry(&entry(&["a.Run"], true, Some("Run"))));
    assert!(!is_run_entry(&entry(&["a.run"], false, Some("run"))));
    assert!(!is_run_entry(&entry(&["a.txt"], true, Some("txt"))));
    assert!(!is_run_entry(&entry(&["run"], true, None)));
    assert!(!is_run_entry(&entry(&["a.runs"], true, Some("runs"))));
}

#[test]
fn path_order_is_by_components() {
    let n = names;
    assert!(path_less(&n(&["C:", "AppData", "Local", "x.run"]), &n(&["C:", "AppData", "LocalLow", "a.run"])));
    assert!(path_less(&n(&["C:", "AppData", "LocalLow", "a.run"]), &n(&["C:", "AppData", "Roaming", "a.run"])));
    assert!(!path_less(&n(&["a"]), &n(&["a"])));
    assert!(path_less(&n(&["a"]), &n(&["a", "b"])));
    assert!(path_less(&n(&["a-b", "c"]), &n(&["a-c"])));
    assert!(!path_less(&n(&["b"]), &n(&["a", "z"])));
    assert!(path_less(&n(&["Z.Run"]), &n(&["a.run"])));
}

#[test]
fn root_and_dots_come_before_names() {
    let rooted = vec![root(), name("a"), name("x.run")];
    let dotted = vec![name(".x"), name("y.run")];
    assert!(path_less(&rooted, &dotted));
    assert!(!path_less(&dotted, &rooted));
    let here = vec![cur(), name("a")];
    assert!(path_less(&here, &n1("-b")));
    assert!(path_less(&vec![root()], &vec![cur()]));
    assert!(path_less(&vec![cur()], &vec![parent()]));
    assert!(path_less(&vec![parent()], &vec![name("")]));
    assert!(path_less(&vec![disk(b'C'), root()], &vec![root(), name("C:")]));
    assert!(path_less(&vec![disk(b'C')], &vec![disk(b'D')]));
}

fn n1(x: &str) -> Vec<PathPart> {
    vec![name(x)]
}

#[test]
fn selected_run_files_from_different_roots() {
    let entries = vec![
        FolderEntry { components: vec![name(".x"), name("y.run")], is_file: true, extension: Some(s("run")) },
        FolderEntry { components: vec![root(), name("a"), name("x.run")], is_file: true, extension: Some(s("run")) },
    ];
    assert_eq!(select_run_files(&entries), vec![1, 0]);
}

#[test]
fn selected_run_files_are_sorted_by_path() {
    let entries = vec![
        entry(&["C:", "AppData", "Roaming", "h", "2.run"], true, Some("run")),
        entry(&["C:", "AppData", "Roaming", "h", "1.run"], true, Some("run")),
        entry(&["C:", "AppData", "Roaming", "h", "notes.txt"], true, Some("txt")),
        entry(&["C:", "AppData", "Local", "h", "9.RUN"], true, Some("RUN")),
        entry(&["C:", "AppData", "Local", "h", "dir.run"], false, Some("run")),
        entry(&["C:", "AppData", "LocalLow", "h", "5.run"], true, Some("run")),
    ];
    assert_eq!(select_run_files(&entries), vec![3, 5, 1, 0]);
    assert_eq!(select_run_files(&vec![]), Vec::<usize>::new());
}

#[test]
fn equal_paths_keep_their_found_order() {
    let entries = vec![
        entry(&["b.run"], true, Some("run")),
        entry(&["a.run"], true, Some("run")),
        entry(&["b.run"], true, Some("run")),
    ];
    assert_eq!(select_run_files(&entries), vec![1, 0, 2]);
}

#[test]
fn settings_keep_each_hash_once() {
    let c = AppConfig::new(s("u"), None, Some(s("/runs")), false, v(&["h1", "h2", "h1"]));
    assert_eq!(c.uploaded_hashes, v(&["h1", "h2"]));
    assert!(c.has_uploaded(&s("h2")));
    assert!(!c.has_uploaded(&s("h3")));
    let mut c = c;
    c.remember_upload(s("h3"));
    c.remember_upload(s("h1"));
    assert_eq!(c.uploaded_hashes, v(&["h1", "h2", "h3"]));
    assert_eq!(c.run_root, Some(s("/runs")));
}

#[test]
fn blank_settings() {
    let c = AppConfig::blank();
    assert_eq!(c.app_url, "");
    assert_eq!(c.device_id, None);
    assert_eq!(c.run_root, None);
    assert!(!c.enabled);
    assert!(c.uploaded_hashes.is_empty());
}

#[test]
fn pairing_unpairing_and_toggling() {
    let mut c = AppConfig::blank();
    c.remember_upload(s("h"));
    c.record_pairing(Some(s("dev-9")), s("https://d.example"));
    assert_eq!(c.device_id, Some(s("dev-9")));
    assert_eq!(c.app_url, "https://d.example");
    assert!(c.enabled);
    assert_eq!(c.uploaded_hashes, v(&["h"]));
    c.set_enabled(false);
    assert!(!c.enabled);
    c.forget_device();
    assert_eq!(c.device_id, None);
    assert_eq!(c.app_url, "https://d.example");
    c.record_pairing(None, s("https://e"));
    assert_eq!(c.device_id, None);
}

#[test]
fn keychain_answers() {
    assert_eq!(token_lookup(Ok(s("tok"))), Ok(Some(s("tok"))));
    assert_eq!(token_lookup(Err(s("No Entry found in secure storage"))), Ok(None));
    assert_eq!(token_lookup(Err(s("Item NOT FOUND"))), Ok(None));
    assert_eq!(token_lookup(Err(s("NoEntry"))), Ok(None));
    assert_eq!(token_lookup(Err(s("access denied"))), Err(s("access denied")));
    assert!(is_missing_entry("no entry"));
    assert!(!is_missing_entry("no  entry"));
    assert_eq!(keychain_removal(Ok(())), Ok(()));
    assert_eq!(keychain_removal(Err(s("No entry"))), Ok(()));
    assert_eq!(keychain_removal(Err(s("locked"))), Err(s("Keychain error: locked")));
    assert_eq!(keychain_error("locked"), "Keychain error: locked");
}

#[test]
fn request_addresses_and_headers() {
    assert_eq!(pair_endpoint("https://d.example//"), "https://d.example/api/sync/pair");
    assert_eq!(pair_endpoint("https://d.example"), "https://d.example/api/sync/pair");
    assert_eq!(import_endpoint("https://d.example/"), "https://d.example/api/sync/runs/import");
    assert_eq!(bearer("abc"), "Bearer abc");
    assert_eq!(device_name(Some(s("my-pc"))), "my-pc");
    assert_eq!(device_name(None), "unknown");
}

#[test]
fn pairing_messages_and_reply() {
    assert_eq!(network_error("timed out"), "Network error: timed out");
    assert_eq!(pair_parse_error("eof"), "Parse error: eof");
    assert_eq!(
        pair_http_failure("400 Bad Request", "{\"error\":\"expired\"}"),
        "Pair failed (HTTP 400 Bad Request): {\"error\":\"expired\"}"
    );
    assert_eq!(
        pair_credentials(PairReply { token: Some(s("t")), device_id: Some(s("d")) }),
        Ok((s("t"), Some(s("d"))))
    );
    assert_eq!(
        pair_credentials(PairReply { token: Some(s("t")), device_id: None }),
        Ok((s("t"), None))
    );
    assert_eq!(
        pair_credentials(PairReply { token: None, device_id: Some(s("d")) }),
        Err(s("Missing 'token' in pair response"))
    );
}

#[test]
fn sync_needs_token_then_address() {
    let blank = AppConfig::blank();
    assert_eq!(
        sync_preflight(&blank, Err(s("no entry"))),
        Err(s("No device token (no entry). Pair first."))
    );
    assert_eq!(
        sync_preflight(&blank, Ok(s("t"))),
        Err(s("app_url not configured. Pair with the dashboard first."))
    );
    assert_eq!(sync_preflight(&paired("https://d"), Ok(s("t"))), Ok(s("t")));
}

#[test]
fn folders_to_scan_and_open() {
    let mut c = paired("https://d");
    assert!(matches!(run_dirs_choice(&c), RunDirs::Defaults));
    assert_eq!(run_folder(&c, Some(s("/home/me/h"))), Ok(s("/home/me/h")));
    assert_eq!(run_folder(&c, None), Err(s("No run directories found for this OS")));
    c.run_root = Some(s("/runs"));
    assert!(matches!(run_dirs_choice(&c), RunDirs::Configured(ref r) if r == "/runs"));
    assert_eq!(run_folder(&c, Some(s("/home/me/h"))), Ok(s("/runs")));
    assert_eq!(file_manager(TargetOs::Windows), Some(s("explorer")));
    assert_eq!(file_manager(TargetOs::MacOs), Some(s("open")));
    assert_eq!(file_manager(TargetOs::Linux), Some(s("xdg-open")));
    assert_eq!(file_manager(TargetOs::Other), None);
}

fn hashed(path: &str, hash: Option<&str>) -> HashedFile {
    HashedFile { path: s(path), hash: hash.map(s) }
}

#[test]
fn sync_skips_recorded_and_unhashable_files() {
    let c = AppConfig::new(s("u"), None, None, true, v(&["old"]));
    let files = vec![
        hashed("a", Some("old")),
        hashed("b", Some("new1")),
        hashed("c", None),
        hashed("d", Some("new2")),
        hashed("e", Some("new1")),
    ];
    assert_eq!(
        select_new_files(&files, &c),
        vec![(1, s("b"), s("new1")), (3, s("d"), s("new2")), (4, s("e"), s("new1"))]
    );
}

fn status(path: &str, st: &str) -> RunFileStatus {
    RunFileStatus { path: s(path), status: s(st), error: None }
}

#[test]
fn only_uploaded_runs_are_recorded() {
    let mut c = AppConfig::new(s("u"), Some(s("d")), None, true, v(&["old"]));
    let runs = vec![(0, s("a"), s("ha")), (1, s("b"), s("hb")), (2, s("c"), s("hc")), (3, s("d"), s("hd"))];
    let result = UploadResult {
        imported: 2,
        duplicates: 1,
        errors: 1,
        files: vec![
            status("x", "error"),
            status("a", "uploaded"),
            status("b", "duplicate"),
            status("c", "error"),
            status("d", "uploaded"),
        ],
    };
    record_uploaded(&mut c, &runs, &result);
    assert_eq!(c.uploaded_hashes, v(&["old", "ha", "hd"]));
    assert_eq!(c.device_id, Some(s("d")));
    record_uploaded(&mut c, &runs, &result);
    assert_eq!(c.uploaded_hashes, v(&["old", "ha", "hd"]));
}

#[test]
fn missing_entry_needs_lower_case_after_lowering() {
    assert!(mentions_missing_entry("no entry for this account"));
    assert!(!mentions_missing_entry("No Entry"));
    assert!(is_missing_entry("No Entry"));
}

#[test]
fn unreachable_dashboard_leaves_runs_for_the_next_sync() {
    let mut c = AppConfig::new(s("u"), None, None, true, vec![]);
    let runs = vec![(0, s("a.run"), s("ha")), (1, s("b.run"), s("hb"))];
    let mut b = UploadBatch::from_parsed(vec![
        ParsedRun { path: s("a.run"), run: Ok(s("1")) },
        ParsedRun { path: s("b.run"), run: Ok(s("2")) },
    ]);
    b.record_network_error("dns error");
    let result = b.finish();
    record_uploaded(&mut c, &runs, &result);
    assert!(c.uploaded_hashes.is_empty());
    let files = vec![hashed("a.run", Some("ha")), hashed("b.run", Some("hb"))];
    assert_eq!(select_new_files(&files, &c), runs);
}

#[test]
fn second_sync_after_full_upload_sends_nothing() {
    let mut c = AppConfig::new(s("u"), None, None, true, v(&["old"]));
    let files = vec![hashed("a.run", Some("old")), hashed("b.run", Some("hb")), hashed("c.run", Some("hc"))];
    let runs = select_new_files(&files, &c);
    assert_eq!(runs, vec![(1, s("b.run"), s("hb")), (2, s("c.run"), s("hc"))]);
    let result = UploadResult {
        imported: 2,
        duplicates: 0,
        errors: 0,
        files: vec![status("b.run", "uploaded"), status("c.run", "uploaded")],
    };
    record_uploaded(&mut c, &runs, &result);
    assert!(select_new_files(&files, &c).is_empty());
}
