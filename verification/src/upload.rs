//! Uploading a batch of run files: the files that cannot be read or parsed
//! are reported at once, the others go to the dashboard in requests of at
//! most fifty runs, and every file ends with exactly one status.
//!
//! `UploadBatch` holds the decisions; the caller performs each request it
//! asks for and hands back what came of it.
use vstd::prelude::*;
use crate::json::{canonical_json, json_canonical_text, runs_body, runs_request_body};


verus! {

/// The largest number of runs sent in one import request.
pub const RUNS_PER_REQUEST: usize = 50;

/// What became of one run file.
pub struct RunFileStatus {
    pub path: String,
    /// `uploaded`, `duplicate` or `error`.
    pub status: String,
    pub error: Option<String>,
}

/// A file's status as plain values.
pub struct StatusView {
    pub path: Seq<char>,
    pub status: Seq<char>,
    pub error: Option<Seq<char>>,
}

impl View for RunFileStatus {
    type V = StatusView;

    open spec fn view(&self) -> StatusView {
        StatusView { path: self.path@, status: self.status@, error: self.error.deep_view() }
    }
}

/// The outcome of an upload: the totals the dashboard reported, plus one
/// status per file.
pub struct UploadResult {
    pub imported: u32,
    pub duplicates: u32,
    pub errors: u32,
    pub files: Vec<RunFileStatus>,
}

impl UploadResult {
    /// The files' statuses as plain values.
    pub open spec fn statuses(&self) -> Seq<StatusView> {
        self.files@.map_values(|f: RunFileStatus| f@)
    }

    /// The result of a sync that found nothing to upload.
    pub fn empty() -> (r: UploadResult)
        ensures
            r.imported == 0,
            r.duplicates == 0,
            r.errors == 0,
            r.files@.len() == 0,
    {
        UploadResult { imported: 0, duplicates: 0, errors: 0, files: Vec::new() }
    }
}

/// The status text of a file the dashboard imported.
pub open spec fn uploaded_label() -> Seq<char> {
    "uploaded"@
}

/// The status text of a file the dashboard already had.
pub open spec fn duplicate_label() -> Seq<char> {
    "duplicate"@
}

/// The status text of a file that did not get through.
pub open spec fn error_label() -> Seq<char> {
    "error"@
}

/// The message for runs the dashboard counted as errors.
pub open spec fn server_error_message() -> Seq<char> {
    "Server reported error for this run"@
}

pub open spec fn uploaded_status(path: Seq<char>) -> StatusView {
    StatusView { path, status: uploaded_label(), error: None }
}

pub open spec fn duplicate_status(path: Seq<char>) -> StatusView {
    StatusView { path, status: duplicate_label(), error: None }
}

pub open spec fn failed_status(path: Seq<char>, message: Seq<char>) -> StatusView {
    StatusView { path, status: error_label(), error: Some(message) }
}

/// The message for a file that could not be read or parsed.
pub open spec fn read_error_message(e: Seq<char>) -> Seq<char> {
    "Read/parse error: "@ + e
}

/// The message for the files of a request that did not reach the dashboard.
pub open spec fn network_error_message(e: Seq<char>) -> Seq<char> {
    "Network error: "@ + e
}

/// The message for the files of a request whose reply could not be read.
pub open spec fn reply_error_message(http_status: Seq<char>, e: Seq<char>) -> Seq<char> {
    "Response parse error (HTTP "@ + http_status + "): "@ + e
}

/// The statuses the files of one request get from the dashboard's counts:
/// the dashboard does not say which run fared how, so the first `imported`
/// files count as uploaded, the next `duplicates` as duplicates, and the
/// rest as errors.
pub open spec fn reply_statuses(paths: Seq<Seq<char>>, imported: int, duplicates: int) -> Seq<
    StatusView,
> {
    Seq::new(
        paths.len(),
        |i: int|
            if i < imported {
                uploaded_status(paths[i])
            } else if i < imported + duplicates {
                duplicate_status(paths[i])
            } else {
                failed_status(paths[i], server_error_message())
            },
    )
}

/// The statuses the files of one request get when it failed as a whole.
pub open spec fn failure_statuses(paths: Seq<Seq<char>>, message: Seq<char>) -> Seq<StatusView> {
    Seq::new(paths.len(), |i: int| failed_status(paths[i], message))
}

/// A run file's path and either its text or why it could not be read.
pub struct RunFile {
    pub path: String,
    pub contents: Result<String, String>,
}

/// A run file's path and either its run as compact JSON or why it could not
/// be read or parsed.
pub struct ParsedRun {
    pub path: String,
    pub run: Result<String, String>,
}

pub open spec fn result_view(r: Result<String, String>) -> Result<Seq<char>, Seq<char>> {
    match r {
        Ok(s) => Ok(s@),
        Err(e) => Err(e@),
    }
}

impl View for RunFile {
    type V = (Seq<char>, Result<Seq<char>, Seq<char>>);

    open spec fn view(&self) -> (Seq<char>, Result<Seq<char>, Seq<char>>) {
        (self.path@, result_view(self.contents))
    }
}

impl View for ParsedRun {
    type V = (Seq<char>, Result<Seq<char>, Seq<char>>);

    open spec fn view(&self) -> (Seq<char>, Result<Seq<char>, Seq<char>>) {
        (self.path@, result_view(self.run))
    }
}

/// The files as plain values.
pub open spec fn run_entries<T: View<V = (Seq<char>, Result<Seq<char>, Seq<char>>)>>(
    v: Seq<T>,
) -> Seq<(Seq<char>, Result<Seq<char>, Seq<char>>)> {
    v.map_values(|f: T| f@)
}

/// What parsing makes of a file's contents: its run as compact JSON, or the
/// read or parse error.
pub open spec fn parse_outcome(contents: Result<Seq<char>, Seq<char>>) -> Result<
    Seq<char>,
    Seq<char>,
> {
    match contents {
        Ok(text) => json_canonical_text(text),
        Err(e) => Err(e),
    }
}

/// The files that parsed, with their runs, in their order.
pub open spec fn good_runs(p: Seq<(Seq<char>, Result<Seq<char>, Seq<char>>)>) -> Seq<
    (Seq<char>, Seq<char>),
>
    decreases p.len(),
{
    if p.len() == 0 {
        Seq::empty()
    } else {
        let rest = good_runs(p.drop_last());
        match p.last().1 {
            Ok(run) => rest.push((p.last().0, run)),
            Err(_) => rest,
        }
    }
}

/// The statuses of the files that did not parse, in their order.
pub open spec fn read_failures(p: Seq<(Seq<char>, Result<Seq<char>, Seq<char>>)>) -> Seq<
    StatusView,
>
    decreases p.len(),
{
    if p.len() == 0 {
        Seq::empty()
    } else {
        let rest = read_failures(p.drop_last());
        match p.last().1 {
            Ok(_) => rest,
            Err(e) => rest.push(failed_status(p.last().0, read_error_message(e))),
        }
    }
}

/// Where the request that starts at `next` ends.
pub open spec fn chunk_end(next: int, len: int) -> int {
    if next + RUNS_PER_REQUEST <= len {
        next + RUNS_PER_REQUEST
    } else {
        len
    }
}

/// The progress of an upload as plain values.
pub struct UploadBatchView {
    /// Paths of the files that parsed, in order.
    pub paths: Seq<Seq<char>>,
    /// Their runs as compact JSON.
    pub runs: Seq<Seq<char>>,
    /// How many of them have been sent and answered.
    pub next: int,
    pub imported: int,
    pub duplicates: int,
    pub errors: int,
    /// The statuses given so far.
    pub files: Seq<StatusView>,
    /// How many statuses are for files that did not parse (they come first).
    pub unreadable: int,
    /// The files the upload was started with.
    pub origin: Seq<(Seq<char>, Result<Seq<char>, Seq<char>>)>,
}

impl UploadBatchView {
    /// The paths of the files the next request carries.
    pub open spec fn chunk_paths(self) -> Seq<Seq<char>> {
        self.paths.subrange(self.next, chunk_end(self.next, self.paths.len() as int))
    }

    /// The runs the next request carries.
    pub open spec fn chunk_runs(self) -> Seq<Seq<char>> {
        self.runs.subrange(self.next, chunk_end(self.next, self.paths.len() as int))
    }

    /// Every file has been sent and answered.
    pub open spec fn done(self) -> bool {
        self.next == self.paths.len()
    }
}

/// An upload in progress.
pub struct UploadBatch {
    paths: Vec<String>,
    runs: Vec<String>,
    next: usize,
    imported: u32,
    duplicates: u32,
    errors: u32,
    files: Vec<RunFileStatus>,
    unreadable: Ghost<int>,
    origin: Ghost<Seq<(Seq<char>, Result<Seq<char>, Seq<char>>)>>,
}

impl View for UploadBatch {
    type V = UploadBatchView;

    closed spec fn view(&self) -> UploadBatchView {
        UploadBatchView {
            paths: self.paths.deep_view(),
            runs: self.runs.deep_view(),
            next: self.next as int,
            imported: self.imported as int,
            duplicates: self.duplicates as int,
            errors: self.errors as int,
            files: self.files@.map_values(|f: RunFileStatus| f@),
            unreadable: self.unreadable@,
            origin: self.origin@,
        }
    }
}

/// A count in the dashboard's reply, as the upload adds it up: missing counts
/// are 0, and a count is cut to its low 32 bits.
pub open spec fn reply_count(c: Option<u64>) -> int {
    match c {
        Some(v) => (v as u32) as int,
        None => 0,
    }
}

fn reply_count_exec(c: Option<u64>) -> (r: u32)
    ensures
        r as int == reply_count(c),
{
    match c {
        Some(v) => v as u32,
        None => 0,
    }
}

/// The counts an import reply holds (`imported`, `duplicates`, `errors`),
/// each when present as an unsigned integer.
pub struct ImportReply {
    pub imported: Option<u64>,
    pub duplicates: Option<u64>,
    pub errors: Option<u64>,
}

/// A batch's progress is consistent: one run per path, progress within
/// bounds, and one status per file dealt with, the parsed files' statuses in
/// the files' order after those of the unreadable ones.
pub open spec fn batch_view_wf(v: UploadBatchView) -> bool {
    &&& v.paths.len() == v.runs.len()
    &&& 0 <= v.next <= v.paths.len()
    &&& 0 <= v.unreadable
    &&& v.files.len() == v.unreadable + v.next
    &&& forall|i: int| 0 <= i < v.next ==> (#[trigger] v.files[v.unreadable + i]).path == v.paths[i]
    &&& v.files.take(v.unreadable) == read_failures(v.origin)
    &&& v.paths == good_runs(v.origin).map_values(|g: (Seq<char>, Seq<char>)| g.0)
    &&& v.runs == good_runs(v.origin).map_values(|g: (Seq<char>, Seq<char>)| g.1)
}

/// Giving the next pending file its status, and moving past it, keeps the
/// progress consistent.
proof fn lemma_next_status_keeps_wf(b: UploadBatchView, v: UploadBatchView, st: StatusView)
    requires
        batch_view_wf(b),
        b.next < b.paths.len(),
        st.path == b.paths[b.next],
        v.paths == b.paths,
        v.runs == b.runs,
        v.origin == b.origin,
        v.unreadable == b.unreadable,
        v.next == b.next + 1,
        v.files == b.files.push(st),
    ensures
        batch_view_wf(v),
{
    assert(v.files.take(v.unreadable) =~= b.files.take(b.unreadable));
    assert forall|i: int| 0 <= i < v.next implies (#[trigger] v.files[v.unreadable + i]).path
        == v.paths[i] by {
        if i < b.next {
            assert(v.files[v.unreadable + i] == b.files[b.unreadable + i]);
        }
    }
}

impl UploadBatch {
    /// The batch's progress is consistent.
    pub open spec fn wf(&self) -> bool {
        batch_view_wf(self@)
    }

    /// Starts an upload of files already parsed: the files that failed get an
    /// error status at once (and count as errors); the others wait to be sent.
    pub fn from_parsed(parsed: Vec<ParsedRun>) -> (b: UploadBatch)
        requires
            parsed.len() <= u32::MAX,
        ensures
            b.wf(),
            b@.paths == good_runs(run_entries(parsed@)).map_values(|g: (Seq<char>, Seq<char>)| g.0),
            b@.runs == good_runs(run_entries(parsed@)).map_values(|g: (Seq<char>, Seq<char>)| g.1),
            b@.next == 0,
            b@.imported == 0,
            b@.duplicates == 0,
            b@.files == read_failures(run_entries(parsed@)),
            b@.errors == b@.files.len(),
            b@.unreadable == b@.files.len(),
            b@.origin == run_entries(parsed@),
    {
        let ghost entries = run_entries(parsed@);
        let mut paths: Vec<String> = Vec::new();
        let mut runs: Vec<String> = Vec::new();
        let mut files: Vec<RunFileStatus> = Vec::new();
        let mut errors: u32 = 0;
        let mut i: usize = 0;
        while i < parsed.len()
            invariant
                entries == run_entries(parsed@),
                i <= parsed.len() <= u32::MAX,
                paths.deep_view() == good_runs(entries.take(i as int)).map_values(
                    |g: (Seq<char>, Seq<char>)| g.0,
                ),
                runs.deep_view() == good_runs(entries.take(i as int)).map_values(
                    |g: (Seq<char>, Seq<char>)| g.1,
                ),
                files@.map_values(|f: RunFileStatus| f@) == read_failures(entries.take(i as int)),
                errors as int == files@.len(),
                files@.len() <= i,
            decreases parsed.len() - i,
        {
            let ghost e = entries.take(i as int);
            let ghost e1 = entries.take(i + 1);
            assert(e1.drop_last() =~= e);
            assert(e1.last() == parsed@[i as int]@);
            let ghost old_paths = paths.deep_view();
            let ghost old_runs = runs.deep_view();
            let ghost old_files = files@.map_values(|f: RunFileStatus| f@);
            match &parsed[i].run {
                Ok(run) => {
                    paths.push(parsed[i].path.clone());
                    runs.push(run.clone());
                    assert(paths.deep_view() =~= old_paths.push(parsed@[i as int].path@));
                    assert(runs.deep_view() =~= old_runs.push(run@));
                    assert(good_runs(e1) == good_runs(e).push((parsed@[i as int].path@, run@)));
                    assert(paths.deep_view() =~= good_runs(e1).map_values(
                        |g: (Seq<char>, Seq<char>)| g.0,
                    ));
                    assert(runs.deep_view() =~= good_runs(e1).map_values(
                        |g: (Seq<char>, Seq<char>)| g.1,
                    ));
                    assert(files@.map_values(|f: RunFileStatus| f@) =~= read_failures(e1));
                },
                Err(msg) => {
                    let mut message = String::from_str("Read/parse error: ");
                    message.append(msg.as_str());
                    let entry = RunFileStatus {
                        path: parsed[i].path.clone(),
                        status: String::from_str("error"),
                        error: Some(message),
                    };
                    files.push(entry);
                    errors = errors + 1;
                    assert(files@.map_values(|f: RunFileStatus| f@) =~= old_files.push(
                        failed_status(parsed@[i as int].path@, read_error_message(msg@)),
                    ));
                    assert(paths.deep_view() =~= good_runs(e1).map_values(
                        |g: (Seq<char>, Seq<char>)| g.0,
                    ));
                    assert(runs.deep_view() =~= good_runs(e1).map_values(
                        |g: (Seq<char>, Seq<char>)| g.1,
                    ));
                },
            }
            i = i + 1;
        }
        assert(entries.take(parsed.len() as int) =~= entries);
        let n = files.len();
        assert(files@.map_values(|f: RunFileStatus| f@).take(n as int) =~= files@.map_values(
            |f: RunFileStatus| f@,
        ));
        UploadBatch {
            paths,
            runs,
            next: 0,
            imported: 0,
            duplicates: 0,
            errors,
            files,
            unreadable: Ghost(n as int),
            origin: Ghost(entries),
        }
    }
}


/// Reads each file's contents as JSON; what came of it, per file.
pub open spec fn parsed_entries(files: Seq<(Seq<char>, Result<Seq<char>, Seq<char>>)>) -> Seq<
    (Seq<char>, Result<Seq<char>, Seq<char>>),
> {
    files.map_values(
        |f: (Seq<char>, Result<Seq<char>, Seq<char>>)| (f.0, parse_outcome(f.1)),
    )
}

/// The failed files' and the parsed files' paths, taken together, are the
/// paths of all the files.
pub proof fn lemma_paths_split(p: Seq<(Seq<char>, Result<Seq<char>, Seq<char>>)>)
    ensures
        read_failures(p).map_values(|s: StatusView| s.path).to_multiset().add(
            good_runs(p).map_values(|g: (Seq<char>, Seq<char>)| g.0).to_multiset(),
        ) == p.map_values(|e: (Seq<char>, Result<Seq<char>, Seq<char>>)| e.0).to_multiset(),
    decreases p.len(),
{
    broadcast use vstd::seq_lib::group_to_multiset_ensures;

    let f = |s: StatusView| s.path;
    let g = |g: (Seq<char>, Seq<char>)| g.0;
    let h = |e: (Seq<char>, Result<Seq<char>, Seq<char>>)| e.0;
    if p.len() == 0 {
        assert(read_failures(p).map_values(f) =~= Seq::<Seq<char>>::empty());
        assert(good_runs(p).map_values(g) =~= Seq::<Seq<char>>::empty());
        assert(p.map_values(h) =~= Seq::<Seq<char>>::empty());
    } else {
        let q = p.drop_last();
        lemma_paths_split(q);
        assert(p.map_values(h) =~= q.map_values(h).push(p.last().0));
        match p.last().1 {
            Ok(run) => {
                assert(good_runs(p).map_values(g) =~= good_runs(q).map_values(g).push(p.last().0));
                assert(read_failures(p).map_values(f) =~= read_failures(q).map_values(f));
            },
            Err(e) => {
                assert(read_failures(p).map_values(f) =~= read_failures(q).map_values(f).push(
                    p.last().0,
                ));
                assert(good_runs(p).map_values(g) =~= good_runs(q).map_values(g));
            },
        }
        assert(read_failures(p).map_values(f).to_multiset().add(
            good_runs(p).map_values(g).to_multiset(),
        ) =~= p.map_values(h).to_multiset());
    }
}


/// Starting an upload keeps every file in its place with its path, and a
/// readable file's run is the JSON parse of its text exactly as read (read
/// errors pass through): what the dashboard receives for a file is the value
/// the file holds.
pub proof fn lemma_parsing_keeps_each_run(files: Seq<(Seq<char>, Result<Seq<char>, Seq<char>>)>)
    ensures
        parsed_entries(files).len() == files.len(),
        forall|i: int|
            0 <= i < files.len() ==> (#[trigger] parsed_entries(files)[i]).0 == files[i].0,
        forall|i: int|
            0 <= i < files.len() && files[i].1 is Ok ==> (#[trigger] parsed_entries(files)[i]).1
                == json_canonical_text(files[i].1->Ok_0),
        forall|i: int|
            0 <= i < files.len() && files[i].1 is Err ==> (#[trigger] parsed_entries(files)[i]).1
                == files[i].1,
{
}

/// Every readable file whose text parses is sent, as the compact form of the
/// value its text holds.
pub proof fn lemma_parsed_runs_are_sent(
    files: Seq<(Seq<char>, Result<Seq<char>, Seq<char>>)>,
    i: int,
)
    requires
        0 <= i < files.len(),
        files[i].1 is Ok,
        json_canonical_text(files[i].1->Ok_0) is Ok,
    ensures
        good_runs(parsed_entries(files)).contains(
            (files[i].0, json_canonical_text(files[i].1->Ok_0)->Ok_0),
        ),
    decreases files.len(),
{
    let q = files.drop_last();
    let pe = parsed_entries(files);
    assert(pe.drop_last() =~= parsed_entries(q));
    let target = (files[i].0, json_canonical_text(files[i].1->Ok_0)->Ok_0);
    if i < files.len() - 1 {
        assert(q[i] == files[i]);
        lemma_parsed_runs_are_sent(q, i);
        let k = choose|k: int| 0 <= k < good_runs(parsed_entries(q)).len()
            && good_runs(parsed_entries(q))[k] == target;
        match pe.last().1 {
            Ok(run) => {
                assert(good_runs(pe)[k] == target);
            },
            Err(_) => {
                assert(good_runs(pe)[k] == target);
            },
        }
    } else {
        assert(pe.last() == (files[i].0, json_canonical_text(files[i].1->Ok_0)));
        assert(good_runs(pe).last() == target);
    }
}

proof fn lemma_failure_statuses_extend(paths: Seq<Seq<char>>, a: int, b: int, m: Seq<char>)
    requires
        0 <= a <= b < paths.len(),
    ensures
        failure_statuses(paths.subrange(a, b + 1), m) == failure_statuses(paths.subrange(a, b), m).push(
            failed_status(paths[b], m),
        ),
{
    let s1 = paths.subrange(a, b + 1);
    let s0 = paths.subrange(a, b);
    assert(s1.len() == s0.len() + 1);
    assert(s1[b - a] == paths[b]);
    assert forall|i: int| 0 <= i < s0.len() implies s1[i] == s0[i] by {}
    assert(failure_statuses(s1, m) =~= failure_statuses(s0, m).push(failed_status(paths[b], m)));
}

proof fn lemma_reply_statuses_extend(paths: Seq<Seq<char>>, a: int, b: int, imp: int, dup: int)
    requires
        0 <= a <= b < paths.len(),
    ensures
        reply_statuses(paths.subrange(a, b + 1), imp, dup) == reply_statuses(paths.subrange(a, b), imp, dup).push(
            if b - a < imp {
                uploaded_status(paths[b])
            } else if b - a < imp + dup {
                duplicate_status(paths[b])
            } else {
                failed_status(paths[b], server_error_message())
            },
        ),
{
    let s1 = paths.subrange(a, b + 1);
    let s0 = paths.subrange(a, b);
    assert(s1.len() == s0.len() + 1);
    assert(s1[b - a] == paths[b]);
    assert forall|i: int| 0 <= i < s0.len() implies s1[i] == s0[i] by {}
    assert(reply_statuses(s1, imp, dup) =~= reply_statuses(s0, imp, dup).push(
        if b - a < imp {
            uploaded_status(paths[b])
        } else if b - a < imp + dup {
            duplicate_status(paths[b])
        } else {
            failed_status(paths[b], server_error_message())
        },
    ));
}


/// How many of the statuses carry `label`.
pub open spec fn count_status(s: Seq<StatusView>, label: Seq<char>) -> nat
    decreases s.len(),
{
    if s.len() == 0 {
        0
    } else {
        count_status(s.drop_last(), label) + if s.last().status == label {
            1nat
        } else {
            0nat
        }
    }
}

pub open spec fn min_int(a: int, b: int) -> int {
    if a <= b {
        a
    } else {
        b
    }
}

/// The statuses a reply gives a request's files never claim more uploads or
/// duplicates than the dashboard counted: `min(imported, n)` files are
/// uploaded, `min(duplicates, n - that)` are duplicates, the rest errors.
pub proof fn lemma_reply_status_counts(paths: Seq<Seq<char>>, imported: int, duplicates: int)
    requires
        0 <= imported,
        0 <= duplicates,
    ensures
        count_status(reply_statuses(paths, imported, duplicates), uploaded_label()) == min_int(
            imported,
            paths.len() as int,
        ),
        count_status(reply_statuses(paths, imported, duplicates), duplicate_label()) == min_int(
            duplicates,
            paths.len() - min_int(imported, paths.len() as int),
        ),
        count_status(reply_statuses(paths, imported, duplicates), error_label()) == paths.len()
            - min_int(imported, paths.len() as int) - min_int(
            duplicates,
            paths.len() - min_int(imported, paths.len() as int),
        ),
    decreases paths.len(),
{
    reveal_strlit("uploaded");
    reveal_strlit("duplicate");
    reveal_strlit("error");
    assert(uploaded_label()[0] != duplicate_label()[0]);
    assert(uploaded_label()[0] != error_label()[0]);
    assert(duplicate_label()[0] != error_label()[0]);
    let s = reply_statuses(paths, imported, duplicates);
    if paths.len() > 0 {
        let p0 = paths.drop_last();
        lemma_reply_status_counts(p0, imported, duplicates);
        assert(s.drop_last() =~= reply_statuses(p0, imported, duplicates));
    } else {
        assert(s.len() == 0);
    }
}

impl UploadBatch {
    /// Starts an upload: each readable file's text is parsed as JSON; the
    /// files that cannot be read or parsed get an error status at once, the
    /// others wait to be sent.
    pub fn new(files: Vec<RunFile>) -> (b: UploadBatch)
        requires
            files.len() <= u32::MAX,
        ensures
            b.wf(),
            b@.origin == parsed_entries(run_entries(files@)),
            b@.next == 0,
            b@.imported == 0,
            b@.duplicates == 0,
            b@.files == read_failures(b@.origin),
            b@.errors == b@.files.len(),
    {
        let ghost entries = run_entries(files@);
        let mut parsed: Vec<ParsedRun> = Vec::new();
        let mut i: usize = 0;
        while i < files.len()
            invariant
                entries == run_entries(files@),
                i <= files.len(),
                parsed@.len() == i,
                run_entries(parsed@) == parsed_entries(entries.take(i as int)),
            decreases files.len() - i,
        {
            let run = match &files[i].contents {
                Ok(text) => canonical_json(text.as_str()),
                Err(e) => Err(e.clone()),
            };
            let ghost before = run_entries(parsed@);
            parsed.push(ParsedRun { path: files[i].path.clone(), run });
            assert(run_entries(parsed@) =~= before.push(
                (files@[i as int].path@, parse_outcome(result_view(files@[i as int].contents))),
            ));
            assert(parsed_entries(entries.take(i + 1)) =~= parsed_entries(entries.take(i as int)).push(
                (files@[i as int].path@, parse_outcome(result_view(files@[i as int].contents))),
            ));
            i = i + 1;
        }
        assert(entries.take(files.len() as int) =~= entries);
        UploadBatch::from_parsed(parsed)
    }

    /// Whether every file has been sent and answered.
    pub fn is_done(&self) -> (r: bool)
        requires
            self.wf(),
        ensures
            r == self@.done(),
    {
        self.next == self.paths.len()
    }

    fn chunk_stop(&self) -> (r: usize)
        requires
            self.wf(),
        ensures
            r as int == chunk_end(self@.next, self@.paths.len() as int),
    {
        if self.paths.len() - self.next >= RUNS_PER_REQUEST {
            self.next + RUNS_PER_REQUEST
        } else {
            self.paths.len()
        }
    }

    /// The body of the next import request, while runs remain to be sent:
    /// the next (at most fifty) runs in their order.
    pub fn next_request(&self) -> (r: Option<String>)
        requires
            self.wf(),
        ensures
            self@.done() ==> r is None,
            !self@.done() ==> (r matches Some(body) && body@ == runs_body(self@.chunk_runs())),
            !self@.done() ==> 1 <= self@.chunk_runs().len() <= RUNS_PER_REQUEST,
    {
        if self.next == self.paths.len() {
            None
        } else {
            let stop = self.chunk_stop();
            Some(runs_request_body(&self.runs, self.next, stop))
        }
    }

    /// Whether the batch can take the failure of the pending request without
    /// its error count passing `u32::MAX`.
    pub fn failure_fits(&self) -> (r: bool)
        requires
            self.wf(),
            !self@.done(),
        ensures
            r == (self@.errors + self@.chunk_paths().len() <= u32::MAX),
    {
        let stop = self.chunk_stop();
        (self.errors as u64) + ((stop - self.next) as u64) <= 0xffff_ffffu64
    }

    /// Whether the batch can take `reply` to the pending request without a
    /// total passing `u32::MAX`.
    pub fn reply_fits(&self, reply: &ImportReply) -> (r: bool)
        requires
            self.wf(),
        ensures
            r == (self@.imported + reply_count(reply.imported) <= u32::MAX && self@.duplicates
                + reply_count(reply.duplicates) <= u32::MAX && self@.errors + reply_count(
                reply.errors,
            ) <= u32::MAX),
    {
        let i = reply_count_exec(reply.imported) as u64;
        let d = reply_count_exec(reply.duplicates) as u64;
        let e = reply_count_exec(reply.errors) as u64;
        (self.imported as u64) + i <= 0xffff_ffffu64 && (self.duplicates as u64) + d
            <= 0xffff_ffffu64 && (self.errors as u64) + e <= 0xffff_ffffu64
    }

    fn fail_chunk(&mut self, message: &String)
        requires
            old(self).wf(),
            !old(self)@.done(),
            old(self)@.errors + old(self)@.chunk_paths().len() <= u32::MAX,
        ensures
            final(self).wf(),
            final(self)@ == (UploadBatchView {
                next: chunk_end(old(self)@.next, old(self)@.paths.len() as int),
                errors: old(self)@.errors + old(self)@.chunk_paths().len(),
                files: old(self)@.files + failure_statuses(old(self)@.chunk_paths(), message@),
                ..old(self)@
            }),
    {
        let ghost v0 = self@;
        let stop = self.chunk_stop();
        let mut j = self.next;
        while j < stop
            invariant
                self.wf(),
                v0.next <= j <= stop,
                stop <= v0.paths.len(),
                stop as int == chunk_end(v0.next, v0.paths.len() as int),
                v0.files.len() == v0.unreadable + v0.next,
                0 <= v0.unreadable,
                0 <= v0.next,
                self.paths.len() == v0.paths.len(),
                self@ == (UploadBatchView {
                    next: j as int,
                    errors: v0.errors + (j - v0.next),
                    files: v0.files + failure_statuses(
                        v0.paths.subrange(v0.next, j as int),
                        message@,
                    ),
                    ..v0
                }),
                v0.errors + (stop - v0.next) <= u32::MAX,
            decreases stop - j,
        {
            let ghost b = self@;
            let ghost before = self@.files;
            let entry = RunFileStatus {
                path: self.paths[j].clone(),
                status: String::from_str("error"),
                error: Some(message.clone()),
            };
            self.files.push(entry);
            self.errors = self.errors + 1;
            self.next = j + 1;
            assert(self@.files =~= before.push(failed_status(v0.paths[j as int], message@)));
            proof {
                lemma_next_status_keeps_wf(b, self@, failed_status(v0.paths[j as int], message@));
                lemma_failure_statuses_extend(v0.paths, v0.next, j as int, message@);
            }
            assert(self@.files =~= v0.files + failure_statuses(
                v0.paths.subrange(v0.next, j + 1),
                message@,
            ));
            j = j + 1;
        }
    }

    /// The pending request did not reach the dashboard: each of its files
    /// gets an error status with the network error, and counts as an error.
    pub fn record_network_error(&mut self, error: &str)
        requires
            old(self).wf(),
            !old(self)@.done(),
            old(self)@.errors + old(self)@.chunk_paths().len() <= u32::MAX,
        ensures
            final(self).wf(),
            final(self)@ == (UploadBatchView {
                next: chunk_end(old(self)@.next, old(self)@.paths.len() as int),
                errors: old(self)@.errors + old(self)@.chunk_paths().len(),
                files: old(self)@.files + failure_statuses(
                    old(self)@.chunk_paths(),
                    network_error_message(error@),
                ),
                ..old(self)@
            }),
    {
        let mut message = String::from_str("Network error: ");
        message.append(error);
        self.fail_chunk(&message);
    }

    /// The dashboard answered the pending request with HTTP status
    /// `http_status`, but its reply could not be read: each of the request's
    /// files gets an error status saying so, and counts as an error.
    pub fn record_unreadable_reply(&mut self, http_status: &str, error: &str)
        requires
            old(self).wf(),
            !old(self)@.done(),
            old(self)@.errors + old(self)@.chunk_paths().len() <= u32::MAX,
        ensures
            final(self).wf(),
            final(self)@ == (UploadBatchView {
                next: chunk_end(old(self)@.next, old(self)@.paths.len() as int),
                errors: old(self)@.errors + old(self)@.chunk_paths().len(),
                files: old(self)@.files + failure_statuses(
                    old(self)@.chunk_paths(),
                    reply_error_message(http_status@, error@),
                ),
                ..old(self)@
            }),
    {
        let mut message = String::from_str("Response parse error (HTTP ");
        message.append(http_status);
        message.append("): ");
        message.append(error);
        self.fail_chunk(&message);
    }

    /// The dashboard answered the pending request with its counts: the totals
    /// grow by them, and the request's files get their statuses from them
    /// (see `reply_statuses`).
    pub fn record_reply(&mut self, reply: &ImportReply)
        requires
            old(self).wf(),
            !old(self)@.done(),
            old(self)@.imported + reply_count(reply.imported) <= u32::MAX,
            old(self)@.duplicates + reply_count(reply.duplicates) <= u32::MAX,
            old(self)@.errors + reply_count(reply.errors) <= u32::MAX,
        ensures
            final(self).wf(),
            final(self)@ == (UploadBatchView {
                next: chunk_end(old(self)@.next, old(self)@.paths.len() as int),
                imported: old(self)@.imported + reply_count(reply.imported),
                duplicates: old(self)@.duplicates + reply_count(reply.duplicates),
                errors: old(self)@.errors + reply_count(reply.errors),
                files: old(self)@.files + reply_statuses(
                    old(self)@.chunk_paths(),
                    reply_count(reply.imported),
                    reply_count(reply.duplicates),
                ),
                ..old(self)@
            }),
    {
        let ghost v0 = self@;
        let imported = reply_count_exec(reply.imported);
        let duplicates = reply_count_exec(reply.duplicates);
        let errors = reply_count_exec(reply.errors);
        let stop = self.chunk_stop();
        let start = self.next;
        let mut j = start;
        let server_message = String::from_str("Server reported error for this run");
        while j < stop
            invariant
                self.wf(),
                start == v0.next,
                start <= j <= stop,
                stop <= v0.paths.len(),
                stop as int == chunk_end(v0.next, v0.paths.len() as int),
                v0.files.len() == v0.unreadable + v0.next,
                0 <= v0.unreadable,
                0 <= v0.next,
                self.paths.len() == v0.paths.len(),
                server_message@ == server_error_message(),
                self@ == (UploadBatchView {
                    next: j as int,
                    files: v0.files + reply_statuses(
                        v0.paths.subrange(v0.next, j as int),
                        imported as int,
                        duplicates as int,
                    ),
                    ..v0
                }),
            decreases stop - j,
        {
            let ghost b = self@;
            let ghost before = self@.files;
            let t = j - start;
            let ghost path = v0.paths[j as int];
            assert(self.paths[j as int]@ == path);
            let entry = if (t as u64) < (imported as u64) {
                let e = RunFileStatus {
                    path: self.paths[j].clone(),
                    status: String::from_str("uploaded"),
                    error: None,
                };
                assert(e@ == uploaded_status(path));
                e
            } else if (t as u64) < (imported as u64) + (duplicates as u64) {
                let e = RunFileStatus {
                    path: self.paths[j].clone(),
                    status: String::from_str("duplicate"),
                    error: None,
                };
                assert(e@ == duplicate_status(path));
                e
            } else {
                let e = RunFileStatus {
                    path: self.paths[j].clone(),
                    status: String::from_str("error"),
                    error: Some(server_message.clone()),
                };
                assert(e@ == failed_status(path, server_error_message()));
                e
            };
            let ghost st = entry@;
            self.files.push(entry);
            self.next = j + 1;
            proof {
                lemma_reply_statuses_extend(
                    v0.paths,
                    v0.next,
                    j as int,
                    imported as int,
                    duplicates as int,
                );
            }
            assert(self@.files =~= before.push(st));
            proof {
                lemma_next_status_keeps_wf(b, self@, st);
            }
            assert(self@.files =~= v0.files + reply_statuses(
                v0.paths.subrange(v0.next, j + 1),
                imported as int,
                duplicates as int,
            ));
            j = j + 1;
        }
        self.imported = self.imported + imported;
        self.duplicates = self.duplicates + duplicates;
        self.errors = self.errors + errors;
    }

    /// The outcome of a finished upload: the totals, and one status per file
    /// given, those of the files that could not be read or parsed first, then
    /// the others in their order. Every file given appears exactly once.
    pub fn finish(self) -> (r: UploadResult)
        requires
            self.wf(),
            self@.done(),
        ensures
            r.imported == self@.imported,
            r.duplicates == self@.duplicates,
            r.errors == self@.errors,
            r.statuses() == self@.files,
            r.statuses().map_values(|s: StatusView| s.path) == read_failures(
                self@.origin,
            ).map_values(|s: StatusView| s.path) + good_runs(self@.origin).map_values(
                |g: (Seq<char>, Seq<char>)| g.0,
            ),
            r.statuses().map_values(|s: StatusView| s.path).to_multiset() == self@.origin.map_values(
                |e: (Seq<char>, Result<Seq<char>, Seq<char>>)| e.0,
            ).to_multiset(),
    {
        let ghost v = self@;
        let r = UploadResult {
            imported: self.imported,
            duplicates: self.duplicates,
            errors: self.errors,
            files: self.files,
        };
        proof {
            let f = |s: StatusView| s.path;
            let fails = read_failures(v.origin).map_values(f);
            let goods = good_runs(v.origin).map_values(|g: (Seq<char>, Seq<char>)| g.0);
            assert(v.files.take(v.unreadable) == read_failures(v.origin));
            assert(r.statuses() == v.files);
            assert(v.files.map_values(f) =~= fails + goods) by {
                assert(fails.len() == v.unreadable);
                assert forall|i: int| 0 <= i < v.files.len() implies #[trigger] v.files.map_values(f)[i]
                    == (fails + goods)[i] by {
                    if i < v.unreadable {
                        assert(v.files[i] == v.files.take(v.unreadable)[i]);
                    } else {
                        let k = i - v.unreadable;
                        assert(v.files[v.unreadable + k].path == v.paths[k]);
                    }
                }
            }
            vstd::seq_lib::lemma_multiset_commutative(fails, goods);
            lemma_paths_split(v.origin);
        }
        r
    }
}

} // verus!
