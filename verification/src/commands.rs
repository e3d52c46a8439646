//! The decisions behind the companion's commands: keychain answers, pairing
//! requests and replies, which runs a sync uploads and what it records, and
//! which folder to open.
use vstd::prelude::*;
use crate::config::{AppConfig, AppConfigView};
use crate::run_files::TargetOs;
use crate::text::{contains_text, has_substring, join2, join3, lowercased, to_lowercase, trim_end, trim_end_char};
use crate::upload::{StatusView, UploadResult, error_label, failure_statuses, uploaded_label};

verus! {

/// A keychain error message that means the entry is simply not there.
pub open spec fn is_missing_entry_message(msg: Seq<char>) -> bool {
    let l = lowercased(msg);
    has_substring(l, "no entry"@) || has_substring(l, "not found"@) || has_substring(l, "noentry"@)
}

/// Whether a lower-cased keychain error message mentions a missing entry.
pub fn mentions_missing_entry(lowered: &str) -> (r: bool)
    ensures
        r == (has_substring(lowered@, "no entry"@) || has_substring(lowered@, "not found"@)
            || has_substring(lowered@, "noentry"@)),
{
    contains_text(lowered, "no entry") || contains_text(lowered, "not found") || contains_text(
        lowered,
        "noentry",
    )
}

/// Whether a keychain error message says the entry does not exist.
pub fn is_missing_entry(msg: &str) -> (r: bool)
    ensures
        r == is_missing_entry_message(msg@),
{
    let l = to_lowercase(msg);
    mentions_missing_entry(l.as_str())
}

/// The stored device token, from what the keychain answered when asked for
/// it: the token; no token when the keychain says there is no entry; the
/// keychain's message otherwise.
pub fn token_lookup(answer: Result<String, String>) -> (r: Result<Option<String>, String>)
    ensures
        match answer {
            Ok(t) => r matches Ok(Some(x)) && x@ == t@,
            Err(e) => if is_missing_entry_message(e@) {
                r matches Ok(None)
            } else {
                r matches Err(m) && m@ == e@
            },
        },
{
    match answer {
        Ok(t) => Ok(Some(t)),
        Err(e) => {
            if is_missing_entry(e.as_str()) {
                Ok(None)
            } else {
                Err(e)
            }
        },
    }
}

/// The message for a keychain failure.
pub open spec fn keychain_error_message(e: Seq<char>) -> Seq<char> {
    "Keychain error: "@ + e
}

/// Whether unpairing may go on after asking the keychain to delete the
/// token: yes when it did, or when there was no entry to delete; otherwise
/// the keychain error.
pub fn keychain_removal(answer: Result<(), String>) -> (r: Result<(), String>)
    ensures
        match answer {
            Ok(_) => r is Ok,
            Err(e) => if is_missing_entry_message(e@) {
                r is Ok
            } else {
                r matches Err(m) && m@ == keychain_error_message(e@)
            },
        },
{
    match answer {
        Ok(_) => Ok(()),
        Err(e) => {
            if is_missing_entry(e.as_str()) {
                Ok(())
            } else {
                Err(join2("Keychain error: ", e.as_str()))
            }
        },
    }
}

/// The message for a failed keychain write during pairing.
pub fn keychain_error(e: &str) -> (r: String)
    ensures
        r@ == keychain_error_message(e@),
{
    join2("Keychain error: ", e)
}

/// `app_url` without trailing slashes, followed by `path`.
pub open spec fn endpoint(app_url: Seq<char>, path: Seq<char>) -> Seq<char> {
    trim_end_char(app_url, '/') + path
}

/// The dashboard's pairing endpoint.
pub fn pair_endpoint(app_url: &str) -> (r: String)
    ensures
        r@ == endpoint(app_url@, "/api/sync/pair"@),
{
    let base = trim_end(app_url, '/');
    join2(base.as_str(), "/api/sync/pair")
}

/// The dashboard's import endpoint.
pub fn import_endpoint(app_url: &str) -> (r: String)
    ensures
        r@ == endpoint(app_url@, "/api/sync/runs/import"@),
{
    let base = trim_end(app_url, '/');
    join2(base.as_str(), "/api/sync/runs/import")
}

/// The `Authorization` header value for a device token.
pub fn bearer(token: &str) -> (r: String)
    ensures
        r@ == "Bearer "@ + token@,
{
    join2("Bearer ", token)
}

/// The name the device pairs under: its host name, or `unknown` when the
/// system would not tell it.
pub fn device_name(host: Option<String>) -> (r: String)
    ensures
        r@ == match host {
            Some(h) => h@,
            None => "unknown"@,
        },
{
    match host {
        Some(h) => h,
        None => String::from_str("unknown"),
    }
}

/// The message for a request that did not reach the dashboard.
pub open spec fn network_error_text(e: Seq<char>) -> Seq<char> {
    "Network error: "@ + e
}

/// The message for a request that did not reach the dashboard.
pub fn network_error(e: &str) -> (r: String)
    ensures
        r@ == network_error_text(e@),
{
    join2("Network error: ", e)
}

/// The message for a pairing reply that is not JSON.
pub fn pair_parse_error(e: &str) -> (r: String)
    ensures
        r@ == "Parse error: "@ + e@,
{
    join2("Parse error: ", e)
}

/// The message for a pairing request the dashboard refused with HTTP status
/// `status` and reply `body`.
pub fn pair_http_failure(status: &str, body: &str) -> (r: String)
    ensures
        r@ == "Pair failed (HTTP "@ + status@ + "): "@ + body@,
{
    let head = join3("Pair failed (HTTP ", status, "): ");
    join2(head.as_str(), body)
}

/// What a pairing reply holds: its `token` and `deviceId` members, each when
/// it is a string.
pub struct PairReply {
    pub token: Option<String>,
    pub device_id: Option<String>,
}

/// The message for a pairing reply without a token.
pub open spec fn missing_token_message() -> Seq<char> {
    "Missing 'token' in pair response"@
}

/// The token and device id a pairing reply gives; a reply without a token
/// fails.
pub fn pair_credentials(reply: PairReply) -> (r: Result<(String, Option<String>), String>)
    ensures
        match reply.token {
            Some(t) => r matches Ok((x, d)) && x@ == t@ && d.deep_view() == reply.device_id.deep_view(),
            None => r matches Err(m) && m@ == missing_token_message(),
        },
{
    match reply.token {
        Some(t) => Ok((t, reply.device_id)),
        None => Err(String::from_str("Missing 'token' in pair response")),
    }
}

/// The message when no device token could be read.
pub open spec fn no_token_message(e: Seq<char>) -> Seq<char> {
    "No device token ("@ + e + "). Pair first."@
}

/// The message when no dashboard address is set.
pub open spec fn no_app_url_message() -> Seq<char> {
    "app_url not configured. Pair with the dashboard first."@
}

/// Whether a sync may start, given the settings and what the keychain
/// answered for the device token: the token when both are there; otherwise
/// the missing token first, then the missing dashboard address.
pub fn sync_preflight(config: &AppConfig, token: Result<String, String>) -> (r: Result<String, String>)
    ensures
        match token {
            Err(e) => r matches Err(m) && m@ == no_token_message(e@),
            Ok(t) => if config@.app_url.len() == 0 {
                r matches Err(m) && m@ == no_app_url_message()
            } else {
                r matches Ok(x) && x@ == t@
            },
        },
{
    match token {
        Err(e) => Err(join3("No device token (", e.as_str(), "). Pair first.")),
        Ok(t) => {
            if config.app_url.unicode_len() == 0 {
                Err(String::from_str("app_url not configured. Pair with the dashboard first."))
            } else {
                Ok(t)
            }
        },
    }
}

/// Where a sync looks for run files.
pub enum RunDirs {
    /// The folder the user set.
    Configured(String),
    /// The system's well-known run folders.
    Defaults,
}

/// The folders a sync scans: the configured run folder if one is set, else
/// the defaults.
pub fn run_dirs_choice(config: &AppConfig) -> (r: RunDirs)
    ensures
        match config@.run_root {
            Some(root) => r matches RunDirs::Configured(x) && x@ == root,
            None => r is Defaults,
        },
{
    match &config.run_root {
        Some(root) => RunDirs::Configured(root.clone()),
        None => RunDirs::Defaults,
    }
}

/// The message when the system has no run folder to open.
pub open spec fn no_run_dir_message() -> Seq<char> {
    "No run directories found for this OS"@
}

/// The folder to show in the file manager: the configured run folder, else
/// the first default one; it fails when there is neither.
pub fn run_folder(config: &AppConfig, first_default: Option<String>) -> (r: Result<String, String>)
    ensures
        match (config@.run_root, first_default.deep_view()) {
            (Some(root), _) => r matches Ok(x) && x@ == root,
            (None, Some(d)) => r matches Ok(x) && x@ == d,
            (None, None) => r matches Err(m) && m@ == no_run_dir_message(),
        },
{
    match &config.run_root {
        Some(root) => Ok(root.clone()),
        None => match first_default {
            Some(d) => Ok(d),
            None => Err(String::from_str("No run directories found for this OS")),
        },
    }
}

/// The program that shows a folder on each system, if the companion knows one.
pub open spec fn file_manager_spec(os: TargetOs) -> Option<Seq<char>> {
    match os {
        TargetOs::Windows => Some("explorer"@),
        TargetOs::MacOs => Some("open"@),
        TargetOs::Linux => Some("xdg-open"@),
        TargetOs::Other => None,
    }
}

/// The program that shows a folder on `os`.
pub fn file_manager(os: TargetOs) -> (r: Option<String>)
    ensures
        r.deep_view() == file_manager_spec(os),
{
    match os {
        TargetOs::Windows => Some(String::from_str("explorer")),
        TargetOs::MacOs => Some(String::from_str("open")),
        TargetOs::Linux => Some(String::from_str("xdg-open")),
        TargetOs::Other => None,
    }
}

/// A run file found by a sync, with its content hash when it could be read.
pub struct HashedFile {
    pub path: String,
    pub hash: Option<String>,
}

impl View for HashedFile {
    type V = (Seq<char>, Option<Seq<char>>);

    open spec fn view(&self) -> (Seq<char>, Option<Seq<char>>) {
        (self.path@, self.hash.deep_view())
    }
}

/// The files a sync uploads: those it could hash whose hash is not among the
/// recorded ones, in their order, each with its position among `files`, its
/// path and its hash.
pub open spec fn new_runs(files: Seq<(Seq<char>, Option<Seq<char>>)>, recorded: Set<Seq<char>>) -> Seq<
    (usize, Seq<char>, Seq<char>),
>
    decreases files.len(),
{
    if files.len() == 0 {
        Seq::empty()
    } else {
        let rest = new_runs(files.drop_last(), recorded);
        match files.last().1 {
            Some(h) => if recorded.contains(h) {
                rest
            } else {
                rest.push(((files.len() - 1) as usize, files.last().0, h))
            },
            None => rest,
        }
    }
}

/// The files a sync uploads: those it could hash whose content was not
/// uploaded before, in their order, each with its position in `files`, its
/// path and its hash.
pub fn select_new_files(files: &Vec<HashedFile>, config: &AppConfig) -> (r: Vec<(usize, String, String)>)
    ensures
        r.deep_view() == new_runs(files@.map_values(|f: HashedFile| f@), config@.uploaded_hashes),
{
    let ghost all = files@.map_values(|f: HashedFile| f@);
    let mut out: Vec<(usize, String, String)> = Vec::new();
    let mut i: usize = 0;
    while i < files.len()
        invariant
            all == files@.map_values(|f: HashedFile| f@),
            i <= files.len(),
            out.deep_view() == new_runs(all.take(i as int), config@.uploaded_hashes),
        decreases files.len() - i,
    {
        assert(all.take(i + 1).drop_last() =~= all.take(i as int));
        assert(all.take(i + 1).last() == files@[i as int]@);
        let ghost before = out.deep_view();
        match &files[i].hash {
            Some(h) => {
                if !config.has_uploaded(h) {
                    out.push((i, files[i].path.clone(), h.clone()));
                    assert(out.deep_view() =~= before.push((i, files@[i as int].path@, h@)));
                }
            },
            None => {},
        }
        i = i + 1;
    }
    assert(all.take(files.len() as int) =~= all);
    out
}

/// A file at `path` was reported uploaded.
pub open spec fn path_uploaded(statuses: Seq<StatusView>, path: Seq<char>) -> bool {
    exists|j: int|
        0 <= j < statuses.len() && (#[trigger] statuses[j]).path == path && statuses[j].status
            == uploaded_label()
}

/// The hashes of the uploaded runs that the upload reported uploaded.
pub open spec fn confirmed_hashes(runs: Seq<(usize, Seq<char>, Seq<char>)>, statuses: Seq<StatusView>) -> Set<
    Seq<char>,
> {
    Set::new(
        |h: Seq<char>|
            exists|i: int|
                0 <= i < runs.len() && (#[trigger] runs[i]).2 == h && path_uploaded(
                    statuses,
                    runs[i].1,
                ),
    )
}

fn was_uploaded(result: &UploadResult, path: &String) -> (r: bool)
    ensures
        r == path_uploaded(result.statuses(), path@),
{
    let uploaded = String::from_str("uploaded");
    let mut j: usize = 0;
    while j < result.files.len()
        invariant
            j <= result.files.len(),
            uploaded@ == uploaded_label(),
            forall|k: int|
                0 <= k < j ==> !((#[trigger] result.statuses()[k]).path == path@
                    && result.statuses()[k].status == uploaded_label()),
        decreases result.files.len() - j,
    {
        let f = &result.files[j];
        assert(result.statuses()[j as int] == f@);
        if f.path == *path && f.status == uploaded {
            return true;
        }
        j = j + 1;
    }
    false
}

/// After an upload, remembers the hashes of the uploaded runs that the
/// upload reported uploaded; the other settings stay.
pub fn record_uploaded(
    config: &mut AppConfig,
    runs: &Vec<(usize, String, String)>,
    result: &UploadResult,
)
    ensures
        old(config).wf() ==> final(config).wf(),
        final(config)@ == (AppConfigView {
            uploaded_hashes: old(config)@.uploaded_hashes.union(
                confirmed_hashes(runs.deep_view(), result.statuses()),
            ),
            ..old(config)@
        }),
{
    let ghost start = config@;
    let ghost start_wf = config.wf();
    let ghost rv = runs.deep_view();
    let mut i: usize = 0;
    assert(start.uploaded_hashes.union(confirmed_hashes(rv.take(0), result.statuses()))
        =~= start.uploaded_hashes);
    while i < runs.len()
        invariant
            rv == runs.deep_view(),
            i <= runs.len(),
            start_wf ==> config.wf(),
            config@ == (AppConfigView {
                uploaded_hashes: start.uploaded_hashes.union(
                    confirmed_hashes(rv.take(i as int), result.statuses()),
                ),
                ..start
            }),
        decreases runs.len() - i,
    {
        let ghost before = config@.uploaded_hashes;
        let up = was_uploaded(result, &runs[i].1);
        if up {
            config.remember_upload(runs[i].2.clone());
        }
        let ghost st = result.statuses();
        assert(confirmed_hashes(rv.take(i + 1), st) =~= if up {
            confirmed_hashes(rv.take(i as int), st).insert(rv[i as int].2)
        } else {
            confirmed_hashes(rv.take(i as int), st)
        }) by {
            let t0 = rv.take(i as int);
            let t1 = rv.take(i + 1);
            assert forall|h: Seq<char>| #[trigger]
                confirmed_hashes(t1, st).contains(h) implies (if up {
                confirmed_hashes(t0, st).insert(rv[i as int].2)
            } else {
                confirmed_hashes(t0, st)
            }).contains(h) by {
                let k = choose|k: int|
                    0 <= k < t1.len() && (#[trigger] t1[k]).2 == h && path_uploaded(st, t1[k].1);
                if k < i {
                    assert(t0[k] == t1[k]);
                }
            }
            assert forall|h: Seq<char>|
                (if up {
                    confirmed_hashes(t0, st).insert(rv[i as int].2)
                } else {
                    confirmed_hashes(t0, st)
                }).contains(h) implies #[trigger] confirmed_hashes(t1, st).contains(h) by {
                if confirmed_hashes(t0, st).contains(h) {
                    let k = choose|k: int|
                        0 <= k < t0.len() && (#[trigger] t0[k]).2 == h && path_uploaded(st, t0[k].1);
                    assert(t1[k] == t0[k]);
                } else {
                    assert(t1[i as int] == rv[i as int]);
                }
            }
        }
        assert(config@.uploaded_hashes =~= start.uploaded_hashes.union(
            confirmed_hashes(rv.take(i + 1), st),
        ));
        i = i + 1;
    }
    assert(rv.take(runs.len() as int) =~= rv);
}

/// No run a sync uploads has a hash that was recorded before it.
pub proof fn lemma_recorded_runs_not_uploaded_again(
    files: Seq<(Seq<char>, Option<Seq<char>>)>,
    recorded: Set<Seq<char>>,
)
    ensures
        forall|i: int|
            0 <= i < new_runs(files, recorded).len() ==> !recorded.contains(
                (#[trigger] new_runs(files, recorded)[i]).2,
            ),
    decreases files.len(),
{
    if files.len() > 0 {
        let rest = files.drop_last();
        lemma_recorded_runs_not_uploaded_again(rest, recorded);
        let n = new_runs(files, recorded);
        assert forall|i: int| 0 <= i < n.len() implies !recorded.contains((#[trigger] n[i]).2) by {
            if i < new_runs(rest, recorded).len() {
                assert(n[i] == new_runs(rest, recorded)[i]);
            }
        }
    }
}

/// Each run a sync uploads is the file at the position it carries, with the
/// hash that file was given.
pub proof fn lemma_new_runs_come_from_files(
    files: Seq<(Seq<char>, Option<Seq<char>>)>,
    recorded: Set<Seq<char>>,
)
    requires
        files.len() <= usize::MAX,
    ensures
        forall|i: int|
            0 <= i < new_runs(files, recorded).len() ==> {
                let r = #[trigger] new_runs(files, recorded)[i];
                &&& r.0 < files.len()
                &&& files[r.0 as int].0 == r.1
                &&& files[r.0 as int].1 == Some(r.2)
            },
    decreases files.len(),
{
    if files.len() > 0 {
        let rest = files.drop_last();
        lemma_new_runs_come_from_files(rest, recorded);
        let n = new_runs(files, recorded);
        assert forall|i: int| 0 <= i < n.len() implies {
            let r = #[trigger] n[i];
            &&& r.0 < files.len()
            &&& files[r.0 as int].0 == r.1
            &&& files[r.0 as int].1 == Some(r.2)
        } by {
            if i < new_runs(rest, recorded).len() {
                let r = new_runs(rest, recorded)[i];
                assert(n[i] == r);
                assert(files[r.0 as int] == rest[r.0 as int]);
            } else {
                assert(files[files.len() - 1] == files.last());
            }
        }
    }
}

/// A file that could be hashed, with a hash not recorded, is among the runs
/// a sync uploads.
proof fn lemma_unrecorded_file_is_new(
    files: Seq<(Seq<char>, Option<Seq<char>>)>,
    recorded: Set<Seq<char>>,
    j: int,
)
    requires
        0 <= j < files.len(),
        files[j].1 is Some,
        !recorded.contains(files[j].1->0),
    ensures
        exists|i: int|
            0 <= i < new_runs(files, recorded).len() && (#[trigger] new_runs(files, recorded)[i]).2
                == files[j].1->0,
    decreases files.len(),
{
    let rest = files.drop_last();
    let n = new_runs(files, recorded);
    if j < files.len() - 1 {
        assert(rest[j] == files[j]);
        lemma_unrecorded_file_is_new(rest, recorded, j);
        let i = choose|i: int|
            0 <= i < new_runs(rest, recorded).len() && (#[trigger] new_runs(rest, recorded)[i]).2
                == rest[j].1->0;
        assert(n[i] == new_runs(rest, recorded)[i]);
    } else {
        assert(files.last() == files[j]);
        assert(n[n.len() - 1].2 == files[j].1->0);
    }
}

/// When every hashed file's hash is recorded, a sync uploads nothing.
proof fn lemma_all_recorded_nothing_new(files: Seq<(Seq<char>, Option<Seq<char>>)>, recorded: Set<Seq<char>>)
    requires
        forall|j: int| 0 <= j < files.len() && (#[trigger] files[j]).1 is Some ==> recorded.contains(
            files[j].1->0,
        ),
    ensures
        new_runs(files, recorded).len() == 0,
    decreases files.len(),
{
    if files.len() > 0 {
        let rest = files.drop_last();
        assert forall|j: int| 0 <= j < rest.len() && (#[trigger] rest[j]).1 is Some implies recorded.contains(
            rest[j].1->0,
        ) by {
            assert(rest[j] == files[j]);
        }
        lemma_all_recorded_nothing_new(rest, recorded);
        assert(files.last() == files[files.len() - 1]);
    }
}

/// A sync after one whose runs were all reported uploaded, over the same
/// files, uploads nothing: recording the confirmed hashes covers every file
/// the first sync sent.
pub proof fn lemma_second_sync_sends_nothing(
    files: Seq<(Seq<char>, Option<Seq<char>>)>,
    recorded: Set<Seq<char>>,
    statuses: Seq<StatusView>,
)
    requires
        forall|i: int|
            0 <= i < new_runs(files, recorded).len() ==> path_uploaded(
                statuses,
                (#[trigger] new_runs(files, recorded)[i]).1,
            ),
    ensures
        new_runs(
            files,
            recorded.union(confirmed_hashes(new_runs(files, recorded), statuses)),
        ).len() == 0,
{
    let n = new_runs(files, recorded);
    let after = recorded.union(confirmed_hashes(n, statuses));
    assert forall|j: int| 0 <= j < files.len() && (#[trigger] files[j]).1 is Some implies after.contains(
        files[j].1->0,
    ) by {
        if !recorded.contains(files[j].1->0) {
            lemma_unrecorded_file_is_new(files, recorded, j);
            let i = choose|i: int| 0 <= i < n.len() && (#[trigger] n[i]).2 == files[j].1->0;
            assert(path_uploaded(statuses, n[i].1));
            assert(confirmed_hashes(n, statuses).contains(files[j].1->0));
        }
    }
    lemma_all_recorded_nothing_new(files, after);
}

/// Recording an upload never forgets a hash, and adds only hashes of runs
/// reported uploaded: a run that failed or was a duplicate is tried again by
/// the next sync unless another uploaded run has the same content.
pub proof fn lemma_recording_keeps_and_confines(
    recorded: Set<Seq<char>>,
    runs: Seq<(usize, Seq<char>, Seq<char>)>,
    statuses: Seq<StatusView>,
    h: Seq<char>,
)
    ensures
        recorded.contains(h) ==> recorded.union(confirmed_hashes(runs, statuses)).contains(h),
        recorded.union(confirmed_hashes(runs, statuses)).contains(h) && !recorded.contains(h)
            ==> exists|i: int|
            0 <= i < runs.len() && (#[trigger] runs[i]).2 == h && path_uploaded(
                statuses,
                runs[i].1,
            ),
{
}

/// A request that failed as a whole (the dashboard unreachable, or its reply
/// unreadable) reports none of its runs uploaded: their hashes are not
/// recorded, and the next sync sends them again.
pub proof fn lemma_failed_request_records_nothing(
    paths: Seq<Seq<char>>,
    message: Seq<char>,
    runs: Seq<(usize, Seq<char>, Seq<char>)>,
)
    ensures
        forall|p: Seq<char>| !path_uploaded(failure_statuses(paths, message), p),
        confirmed_hashes(runs, failure_statuses(paths, message)) == Set::<Seq<char>>::empty(),
{
    reveal_strlit("error");
    reveal_strlit("uploaded");
    assert(error_label()[0] != uploaded_label()[0]);
    let st = failure_statuses(paths, message);
    assert forall|p: Seq<char>| !path_uploaded(st, p) by {
        if path_uploaded(st, p) {
            let j = choose|j: int|
                0 <= j < st.len() && (#[trigger] st[j]).path == p && st[j].status == uploaded_label();
            assert(st[j].status == error_label());
        }
    }
    assert(confirmed_hashes(runs, st) =~= Set::<Seq<char>>::empty());
}

} // verus!
