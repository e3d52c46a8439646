//! Where run files are looked for, which directory entries are run files,
//! and the order in which they are uploaded.
use vstd::prelude::*;
use crate::text::{lowercased, same_text, to_lowercase};

verus! {

/// The operating systems the companion knows the game's save folders on.
pub enum TargetOs {
    Windows,
    MacOs,
    Linux,
    Other,
}

/// The components below a base folder that lead to the game's run history.
pub open spec fn history_tail() -> Seq<Seq<char>> {
    seq!["SlayTheSpire2"@, "steam"@, "history"@]
}

/// A run folder below `base`, if the system has that base folder.
pub open spec fn below<P>(base: Option<P>, components: Seq<Seq<char>>) -> Seq<(P, Seq<Seq<char>>)> {
    match base {
        Some(b) => seq![(b, components)],
        None => Seq::empty(),
    }
}

/// The well-known run folders for each system, in the order they are
/// searched, each as a base folder and the components below it. A base
/// folder that the system does not have is skipped.
pub open spec fn default_run_dirs_spec<P>(
    os: TargetOs,
    data: Option<P>,
    data_local: Option<P>,
    home: Option<P>,
) -> Seq<(P, Seq<Seq<char>>)> {
    match os {
        TargetOs::Windows => below(data, history_tail()) + below(data_local, history_tail()) + below(
            home,
            seq!["AppData"@, "LocalLow"@, "Mega Crit"@] + history_tail(),
        ),
        TargetOs::MacOs => below(home, seq!["Library"@, "Application Support"@] + history_tail()),
        TargetOs::Linux => below(home, seq![".local"@, "share"@] + history_tail()),
        TargetOs::Other => Seq::empty(),
    }
}

/// The folders as plain values.
pub open spec fn dirs_view<P>(v: Seq<(P, Vec<String>)>) -> Seq<(P, Seq<Seq<char>>)> {
    v.map_values(|d: (P, Vec<String>)| (d.0, d.1.deep_view()))
}

fn history_components(middle: &[&str]) -> (r: Vec<String>)
    ensures
        r.deep_view() == middle@.map_values(|s: &str| s@) + history_tail(),
{
    let mut v: Vec<String> = Vec::new();
    let mut i: usize = 0;
    while i < middle.len()
        invariant
            i <= middle@.len(),
            v.deep_view() == middle@.take(i as int).map_values(|s: &str| s@),
        decreases middle@.len() - i,
    {
        let ghost before = v.deep_view();
        v.push(String::from_str(middle[i]));
        assert(middle@.take(i + 1).map_values(|s: &str| s@) =~= middle@.take(i as int).map_values(
            |s: &str| s@,
        ).push(middle@[i as int]@));
        assert(v.deep_view() =~= before.push(middle@[i as int]@));
        i = i + 1;
    }
    assert(middle@.take(middle@.len() as int) =~= middle@);
    let ghost before = v.deep_view();
    v.push(String::from_str("SlayTheSpire2"));
    v.push(String::from_str("steam"));
    v.push(String::from_str("history"));
    assert(v.deep_view() =~= before + history_tail());
    v
}

fn push_below<P>(dirs: &mut Vec<(P, Vec<String>)>, base: Option<P>, middle: &[&str])
    ensures
        dirs_view(final(dirs)@) == dirs_view(old(dirs)@) + below(
            base,
            middle@.map_values(|s: &str| s@) + history_tail(),
        ),
{
    let ghost before = dirs_view(dirs@);
    match base {
        Some(b) => {
            let components = history_components(middle);
            dirs.push((b, components));
        },
        None => {},
    }
    assert(dirs_view(dirs@) =~= before + below(base, middle@.map_values(|s: &str| s@) + history_tail()));
}

/// The well-known run folders on `os`, given the system's data folder,
/// local data folder and home folder where it has them; each folder comes as
/// its base folder and the components below it.
pub fn default_run_dirs<P>(
    os: TargetOs,
    data: Option<P>,
    data_local: Option<P>,
    home: Option<P>,
) -> (r: Vec<(P, Vec<String>)>)
    ensures
        dirs_view(r@) == default_run_dirs_spec(os, data, data_local, home),
{
    let mut dirs: Vec<(P, Vec<String>)> = Vec::new();
    let ghost spec = default_run_dirs_spec(os, data, data_local, home);
    assert(dirs_view(dirs@) =~= Seq::<(P, Seq<Seq<char>>)>::empty());
    match os {
        TargetOs::Windows => {
            let empty: [&str; 0] = [];
            assert(empty@.map_values(|s: &str| s@) + history_tail() =~= history_tail());
            let middle: [&str; 3] = ["AppData", "LocalLow", "Mega Crit"];
            assert(middle@.map_values(|s: &str| s@) =~= seq!["AppData"@, "LocalLow"@, "Mega Crit"@]);
            push_below(&mut dirs, data, &empty);
            push_below(&mut dirs, data_local, &empty);
            push_below(&mut dirs, home, &middle);
        },
        TargetOs::MacOs => {
            let middle: [&str; 2] = ["Library", "Application Support"];
            assert(middle@.map_values(|s: &str| s@) =~= seq!["Library"@, "Application Support"@]);
            push_below(&mut dirs, home, &middle);
        },
        TargetOs::Linux => {
            let middle: [&str; 2] = [".local", "share"];
            assert(middle@.map_values(|s: &str| s@) =~= seq![".local"@, "share"@]);
            push_below(&mut dirs, home, &middle);
        },
        TargetOs::Other => {},
    }
    assert(dirs_view(dirs@) =~= spec);
    dirs
}

/// Outside Windows the data folders play no part: the run folders depend on
/// the home folder alone, there is at most one, and on macOS and Linux it is
/// the game's history folder below the home folder.
pub proof fn lemma_data_folders_only_on_windows<P>(
    os: TargetOs,
    data: Option<P>,
    data_local: Option<P>,
    other_data: Option<P>,
    other_data_local: Option<P>,
    home: Option<P>,
)
    requires
        os != TargetOs::Windows,
    ensures
        default_run_dirs_spec(os, data, data_local, home) == default_run_dirs_spec(
            os,
            other_data,
            other_data_local,
            home,
        ),
        default_run_dirs_spec(os, data, data_local, home).len() <= 1,
        os == TargetOs::MacOs && home is Some ==> default_run_dirs_spec(os, data, data_local, home)
            == seq![
            (
                home->0,
                seq!["Library"@, "Application Support"@, "SlayTheSpire2"@, "steam"@, "history"@],
            ),
        ],
        os == TargetOs::Linux && home is Some ==> default_run_dirs_spec(os, data, data_local, home)
            == seq![(home->0, seq![".local"@, "share"@, "SlayTheSpire2"@, "steam"@, "history"@])],
        os == TargetOs::Other ==> default_run_dirs_spec(os, data, data_local, home).len() == 0,
        home is None ==> default_run_dirs_spec(os, data, data_local, home).len() == 0,
{
    assert(seq!["Library"@, "Application Support"@] + history_tail() =~= seq![
        "Library"@,
        "Application Support"@,
        "SlayTheSpire2"@,
        "steam"@,
        "history"@,
    ]);
    assert(seq![".local"@, "share"@] + history_tail() =~= seq![
        ".local"@,
        "share"@,
        "SlayTheSpire2"@,
        "steam"@,
        "history"@,
    ]);
}

/// On Windows the run folders are those below the data folder, the local
/// data folder and the home folder, in that order, each where the system has
/// that folder.
pub proof fn lemma_windows_folders<P>(data: Option<P>, data_local: Option<P>, home: Option<P>)
    ensures
        default_run_dirs_spec(TargetOs::Windows, data, data_local, home).len() == (if data is Some {
            1int
        } else {
            0
        }) + (if data_local is Some {
            1int
        } else {
            0
        }) + (if home is Some {
            1int
        } else {
            0
        }),
        data is Some ==> default_run_dirs_spec(TargetOs::Windows, data, data_local, home)[0] == (
            data->0,
            seq!["SlayTheSpire2"@, "steam"@, "history"@],
        ),
        data_local is Some ==> default_run_dirs_spec(TargetOs::Windows, data, data_local, home)[if data
            is Some {
            1int
        } else {
            0
        }] == (data_local->0, seq!["SlayTheSpire2"@, "steam"@, "history"@]),
        home is Some ==> default_run_dirs_spec(TargetOs::Windows, data, data_local, home).last() == (
            home->0,
            seq!["AppData"@, "LocalLow"@, "Mega Crit"@, "SlayTheSpire2"@, "steam"@, "history"@],
        ),
{
    assert(seq!["AppData"@, "LocalLow"@, "Mega Crit"@] + history_tail() =~= seq![
        "AppData"@,
        "LocalLow"@,
        "Mega Crit"@,
        "SlayTheSpire2"@,
        "steam"@,
        "history"@,
    ]);
}

/// The kind of a path component, as `std::path::Component` tells them
/// apart: a prefix (with the number of its `std::path::Prefix` variant, in
/// declaration order), the root, `.`, `..`, or a name.
pub enum PartKind {
    Prefix(u8),
    RootDir,
    CurDir,
    ParentDir,
    Normal,
}

/// Where a kind of component stands in the order of components: prefixes
/// (by variant) before the root, the root before `.`, `.` before `..`, and
/// `..` before any name.
pub open spec fn kind_rank(k: PartKind) -> (int, int) {
    match k {
        PartKind::Prefix(v) => (0, v as int),
        PartKind::RootDir => (1, 0),
        PartKind::CurDir => (2, 0),
        PartKind::ParentDir => (3, 0),
        PartKind::Normal => (4, 0),
    }
}

/// `a` is a kind that comes before `b`.
pub open spec fn kind_lt(a: PartKind, b: PartKind) -> bool {
    kind_rank(a).0 < kind_rank(b).0 || (kind_rank(a).0 == kind_rank(b).0 && kind_rank(a).1
        < kind_rank(b).1)
}

/// One component of a path: its kind and the values `std` compares it by,
/// in order (the encoded bytes of a name, the fields of a prefix; none for
/// the root, `.` and `..`).
pub struct PathPart {
    pub kind: PartKind,
    pub fields: Vec<Vec<u8>>,
}

impl View for PathPart {
    type V = (PartKind, Seq<Seq<u8>>);

    open spec fn view(&self) -> (PartKind, Seq<Seq<u8>>) {
        (self.kind, self.fields.deep_view())
    }
}

/// Byte order: byte by byte, a proper prefix first (the order of `OsStr`).
pub open spec fn bytes_lt(a: Seq<u8>, b: Seq<u8>) -> bool
    decreases a.len(),
{
    if a.len() == 0 {
        b.len() > 0
    } else if b.len() == 0 {
        false
    } else if a[0] != b[0] {
        a[0] < b[0]
    } else {
        bytes_lt(a.drop_first(), b.drop_first())
    }
}

/// The order of a component's values: field by field in byte order.
pub open spec fn fields_lt(a: Seq<Seq<u8>>, b: Seq<Seq<u8>>) -> bool
    decreases a.len(),
{
    if a.len() == 0 {
        b.len() > 0
    } else if b.len() == 0 {
        false
    } else if a[0] != b[0] {
        bytes_lt(a[0], b[0])
    } else {
        fields_lt(a.drop_first(), b.drop_first())
    }
}

/// Component order: by kind first, then by the component's values (the
/// order `std` derives for `Component`).
pub open spec fn part_lt(a: (PartKind, Seq<Seq<u8>>), b: (PartKind, Seq<Seq<u8>>)) -> bool {
    if a.0 != b.0 {
        kind_lt(a.0, b.0)
    } else {
        fields_lt(a.1, b.1)
    }
}

/// Path order: component by component, a proper prefix first (the order of
/// `std::path::Path`).
pub open spec fn path_lt(a: Seq<(PartKind, Seq<Seq<u8>>)>, b: Seq<(PartKind, Seq<Seq<u8>>)>) -> bool
    decreases a.len(),
{
    if a.len() == 0 {
        b.len() > 0
    } else if b.len() == 0 {
        false
    } else if a[0] != b[0] {
        part_lt(a[0], b[0])
    } else {
        path_lt(a.drop_first(), b.drop_first())
    }
}

pub proof fn lemma_kind_lt_order(a: PartKind, b: PartKind, c: PartKind)
    ensures
        !kind_lt(a, a),
        kind_lt(a, b) && kind_lt(b, c) ==> kind_lt(a, c),
        a != b ==> kind_lt(a, b) || kind_lt(b, a),
{
    if a != b && kind_rank(a) == kind_rank(b) {
        match a {
            PartKind::Prefix(v) => {
                assert(b matches PartKind::Prefix(w) && v == w);
            },
            _ => {},
        }
    }
}

pub proof fn lemma_bytes_lt_irreflexive(a: Seq<u8>)
    ensures
        !bytes_lt(a, a),
    decreases a.len(),
{
    if a.len() > 0 {
        lemma_bytes_lt_irreflexive(a.drop_first());
    }
}

pub proof fn lemma_bytes_lt_transitive(a: Seq<u8>, b: Seq<u8>, c: Seq<u8>)
    requires
        bytes_lt(a, b),
        bytes_lt(b, c),
    ensures
        bytes_lt(a, c),
    decreases a.len(),
{
    if a.len() > 0 && b.len() > 0 && c.len() > 0 {
        if a[0] == b[0] && b[0] == c[0] {
            lemma_bytes_lt_transitive(a.drop_first(), b.drop_first(), c.drop_first());
        }
    }
}

pub proof fn lemma_bytes_lt_total(a: Seq<u8>, b: Seq<u8>)
    requires
        a != b,
    ensures
        bytes_lt(a, b) || bytes_lt(b, a),
    decreases a.len(),
{
    if a.len() > 0 && b.len() > 0 {
        if a[0] == b[0] {
            if a.drop_first() == b.drop_first() {
                assert(a =~= seq![a[0]] + a.drop_first());
                assert(b =~= seq![b[0]] + b.drop_first());
            }
            lemma_bytes_lt_total(a.drop_first(), b.drop_first());
        }
    } else if a.len() == 0 && b.len() == 0 {
        assert(a =~= b);
    }
}

pub proof fn lemma_fields_lt_irreflexive(a: Seq<Seq<u8>>)
    ensures
        !fields_lt(a, a),
    decreases a.len(),
{
    if a.len() > 0 {
        lemma_fields_lt_irreflexive(a.drop_first());
    }
}

pub proof fn lemma_fields_lt_transitive(a: Seq<Seq<u8>>, b: Seq<Seq<u8>>, c: Seq<Seq<u8>>)
    requires
        fields_lt(a, b),
        fields_lt(b, c),
    ensures
        fields_lt(a, c),
    decreases a.len(),
{
    if a.len() > 0 && b.len() > 0 && c.len() > 0 {
        if a[0] == b[0] && b[0] == c[0] {
            lemma_fields_lt_transitive(a.drop_first(), b.drop_first(), c.drop_first());
        } else if a[0] == b[0] {
        } else if b[0] == c[0] {
        } else {
            lemma_bytes_lt_transitive(a[0], b[0], c[0]);
            if a[0] == c[0] {
                lemma_bytes_lt_irreflexive(a[0]);
                lemma_bytes_lt_transitive(a[0], b[0], a[0]);
            }
        }
    }
}

pub proof fn lemma_fields_lt_total(a: Seq<Seq<u8>>, b: Seq<Seq<u8>>)
    requires
        a != b,
    ensures
        fields_lt(a, b) || fields_lt(b, a),
    decreases a.len(),
{
    if a.len() > 0 && b.len() > 0 {
        if a[0] == b[0] {
            if a.drop_first() == b.drop_first() {
                assert(a =~= seq![a[0]] + a.drop_first());
                assert(b =~= seq![b[0]] + b.drop_first());
            }
            lemma_fields_lt_total(a.drop_first(), b.drop_first());
        } else {
            lemma_bytes_lt_total(a[0], b[0]);
        }
    } else if a.len() == 0 && b.len() == 0 {
        assert(a =~= b);
    }
}

pub proof fn lemma_part_lt_irreflexive(a: (PartKind, Seq<Seq<u8>>))
    ensures
        !part_lt(a, a),
{
    lemma_fields_lt_irreflexive(a.1);
}

pub proof fn lemma_part_lt_transitive(
    a: (PartKind, Seq<Seq<u8>>),
    b: (PartKind, Seq<Seq<u8>>),
    c: (PartKind, Seq<Seq<u8>>),
)
    requires
        part_lt(a, b),
        part_lt(b, c),
    ensures
        part_lt(a, c),
{
    lemma_kind_lt_order(a.0, b.0, c.0);
    lemma_kind_lt_order(b.0, c.0, a.0);
    lemma_kind_lt_order(c.0, a.0, b.0);
    if a.0 == b.0 && b.0 == c.0 {
        lemma_fields_lt_transitive(a.1, b.1, c.1);
    }
}

pub proof fn lemma_part_lt_total(a: (PartKind, Seq<Seq<u8>>), b: (PartKind, Seq<Seq<u8>>))
    requires
        a != b,
    ensures
        part_lt(a, b) || part_lt(b, a),
{
    lemma_kind_lt_order(a.0, b.0, a.0);
    if a.0 == b.0 {
        lemma_fields_lt_total(a.1, b.1);
    }
}

pub proof fn lemma_path_lt_irreflexive(a: Seq<(PartKind, Seq<Seq<u8>>)>)
    ensures
        !path_lt(a, a),
    decreases a.len(),
{
    if a.len() > 0 {
        lemma_path_lt_irreflexive(a.drop_first());
    }
}

pub proof fn lemma_path_lt_transitive(
    a: Seq<(PartKind, Seq<Seq<u8>>)>,
    b: Seq<(PartKind, Seq<Seq<u8>>)>,
    c: Seq<(PartKind, Seq<Seq<u8>>)>,
)
    requires
        path_lt(a, b),
        path_lt(b, c),
    ensures
        path_lt(a, c),
    decreases a.len(),
{
    if a.len() > 0 && b.len() > 0 && c.len() > 0 {
        if a[0] == b[0] && b[0] == c[0] {
            lemma_path_lt_transitive(a.drop_first(), b.drop_first(), c.drop_first());
        } else if a[0] == b[0] {
        } else if b[0] == c[0] {
        } else {
            lemma_part_lt_transitive(a[0], b[0], c[0]);
            if a[0] == c[0] {
                lemma_part_lt_irreflexive(a[0]);
                lemma_part_lt_transitive(a[0], b[0], a[0]);
            }
        }
    }
}

pub proof fn lemma_path_lt_total(a: Seq<(PartKind, Seq<Seq<u8>>)>, b: Seq<(PartKind, Seq<Seq<u8>>)>)
    requires
        a != b,
    ensures
        path_lt(a, b) || path_lt(b, a),
    decreases a.len(),
{
    if a.len() > 0 && b.len() > 0 {
        if a[0] == b[0] {
            if a.drop_first() == b.drop_first() {
                assert(a =~= seq![a[0]] + a.drop_first());
                assert(b =~= seq![b[0]] + b.drop_first());
            }
            lemma_path_lt_total(a.drop_first(), b.drop_first());
        } else {
            lemma_part_lt_total(a[0], b[0]);
        }
    } else if a.len() == 0 && b.len() == 0 {
        assert(a =~= b);
    }
}

/// `a` does not come after `b`.
pub open spec fn path_le(a: Seq<(PartKind, Seq<Seq<u8>>)>, b: Seq<(PartKind, Seq<Seq<u8>>)>) -> bool {
    !path_lt(b, a)
}

proof fn lemma_path_le_transitive(
    a: Seq<(PartKind, Seq<Seq<u8>>)>,
    b: Seq<(PartKind, Seq<Seq<u8>>)>,
    c: Seq<(PartKind, Seq<Seq<u8>>)>,
)
    requires
        path_le(a, b),
        path_le(b, c),
    ensures
        path_le(a, c),
{
    if path_lt(c, a) {
        if a == b {
        } else if b == c {
        } else {
            lemma_path_lt_total(a, b);
            lemma_path_lt_total(b, c);
            lemma_path_lt_transitive(c, a, b);
        }
    }
}

proof fn lemma_path_lt_le(
    a: Seq<(PartKind, Seq<Seq<u8>>)>,
    b: Seq<(PartKind, Seq<Seq<u8>>)>,
    c: Seq<(PartKind, Seq<Seq<u8>>)>,
)
    requires
        path_lt(a, b),
        path_le(b, c),
    ensures
        path_lt(a, c),
{
    if b == c {
    } else {
        lemma_path_lt_total(b, c);
        lemma_path_lt_transitive(a, b, c);
    }
}

fn bytes_less_from(a: &Vec<u8>, b: &Vec<u8>, i: usize) -> (r: bool)
    requires
        i <= a.len(),
        i <= b.len(),
    ensures
        r == bytes_lt(a@.skip(i as int), b@.skip(i as int)),
    decreases a.len() - i,
{
    if i == a.len() {
        i < b.len()
    } else if i == b.len() {
        false
    } else if a[i] != b[i] {
        a[i] < b[i]
    } else {
        assert(a@.skip(i as int).drop_first() =~= a@.skip(i + 1));
        assert(b@.skip(i as int).drop_first() =~= b@.skip(i + 1));
        bytes_less_from(a, b, i + 1)
    }
}

fn bytes_less(a: &Vec<u8>, b: &Vec<u8>) -> (r: bool)
    ensures
        r == bytes_lt(a@, b@),
{
    assert(a@.skip(0) =~= a@);
    assert(b@.skip(0) =~= b@);
    bytes_less_from(a, b, 0)
}

fn fields_less_from(a: &Vec<Vec<u8>>, b: &Vec<Vec<u8>>, i: usize) -> (r: bool)
    requires
        i <= a.len(),
        i <= b.len(),
    ensures
        r == fields_lt(a.deep_view().skip(i as int), b.deep_view().skip(i as int)),
    decreases a.len() - i,
{
    if i == a.len() {
        i < b.len()
    } else if i == b.len() {
        false
    } else if {
        assert(a.deep_view()[i as int] =~= a@[i as int]@);
        assert(b.deep_view()[i as int] =~= b@[i as int]@);
        assert(a.deep_view().skip(i as int)[0] == a.deep_view()[i as int]);
        assert(b.deep_view().skip(i as int)[0] == b.deep_view()[i as int]);
        bytes_less(&a[i], &b[i])
    } {
        proof {
            lemma_bytes_lt_irreflexive(a[i as int]@);
        }
        true
    } else if bytes_less(&b[i], &a[i]) {
        proof {
            lemma_bytes_lt_irreflexive(a[i as int]@);
        }
        false
    } else {
        proof {
            if a[i as int]@ != b[i as int]@ {
                lemma_bytes_lt_total(a[i as int]@, b[i as int]@);
            }
        }
        assert(a.deep_view().skip(i as int).drop_first() =~= a.deep_view().skip(i + 1));
        assert(b.deep_view().skip(i as int).drop_first() =~= b.deep_view().skip(i + 1));
        fields_less_from(a, b, i + 1)
    }
}

fn kind_rank_exec(k: &PartKind) -> (r: (u8, u8))
    ensures
        r.0 as int == kind_rank(*k).0,
        r.1 as int == kind_rank(*k).1,
{
    match k {
        PartKind::Prefix(v) => (0, *v),
        PartKind::RootDir => (1, 0),
        PartKind::CurDir => (2, 0),
        PartKind::ParentDir => (3, 0),
        PartKind::Normal => (4, 0),
    }
}

fn kind_less(a: &PartKind, b: &PartKind) -> (r: bool)
    ensures
        r == kind_lt(*a, *b),
{
    let x = kind_rank_exec(a);
    let y = kind_rank_exec(b);
    x.0 < y.0 || (x.0 == y.0 && x.1 < y.1)
}

fn part_less(a: &PathPart, b: &PathPart) -> (r: bool)
    ensures
        r == part_lt(a@, b@),
{
    proof {
        lemma_kind_lt_order(a.kind, b.kind, a.kind);
    }
    if kind_less(&a.kind, &b.kind) {
        true
    } else if kind_less(&b.kind, &a.kind) {
        false
    } else {
        assert(a.fields.deep_view().skip(0) =~= a.fields.deep_view());
        assert(b.fields.deep_view().skip(0) =~= b.fields.deep_view());
        fields_less_from(&a.fields, &b.fields, 0)
    }
}

/// A path as plain values, component by component.
pub open spec fn parts_view(v: Seq<PathPart>) -> Seq<(PartKind, Seq<Seq<u8>>)> {
    v.map_values(|p: PathPart| p@)
}

fn path_less_from(a: &Vec<PathPart>, b: &Vec<PathPart>, i: usize) -> (r: bool)
    requires
        i <= a.len(),
        i <= b.len(),
    ensures
        r == path_lt(parts_view(a@).skip(i as int), parts_view(b@).skip(i as int)),
    decreases a.len() - i,
{
    if i == a.len() {
        i < b.len()
    } else if i == b.len() {
        false
    } else if part_less(&a[i], &b[i]) {
        proof {
            lemma_part_lt_irreflexive(a@[i as int]@);
        }
        true
    } else if part_less(&b[i], &a[i]) {
        proof {
            lemma_part_lt_irreflexive(a@[i as int]@);
        }
        false
    } else {
        proof {
            if a@[i as int]@ != b@[i as int]@ {
                lemma_part_lt_total(a@[i as int]@, b@[i as int]@);
            }
        }
        assert(parts_view(a@).skip(i as int).drop_first() =~= parts_view(a@).skip(i + 1));
        assert(parts_view(b@).skip(i as int).drop_first() =~= parts_view(b@).skip(i + 1));
        path_less_from(a, b, i + 1)
    }
}

/// Whether path `a` comes before path `b`.
pub fn path_less(a: &Vec<PathPart>, b: &Vec<PathPart>) -> (r: bool)
    ensures
        r == path_lt(parts_view(a@), parts_view(b@)),
{
    assert(parts_view(a@).skip(0) =~= parts_view(a@));
    assert(parts_view(b@).skip(0) =~= parts_view(b@));
    path_less_from(a, b, 0)
}

/// What the companion knows of an entry of a run folder: its path by
/// components, whether it is a file, and its extension if it has one.
pub struct FolderEntry {
    pub components: Vec<PathPart>,
    pub is_file: bool,
    pub extension: Option<String>,
}

/// The entry's path, component by component.
pub open spec fn entry_path(e: FolderEntry) -> Seq<(PartKind, Seq<Seq<u8>>)> {
    parts_view(e.components@)
}

/// Whether an entry is a run file depends on whether it is a file and on its
/// extension alone, never on where it lies: two entries that agree on those
/// are both run files or both not, whatever their components (a drive
/// prefix, the root, `.` or names). A directory, or a file with no
/// extension, is never one.
pub proof fn lemma_run_file_ignores_location(a: FolderEntry, b: FolderEntry)
    requires
        a.is_file == b.is_file,
        a.extension.deep_view() == b.extension.deep_view(),
    ensures
        is_run_file(a) == is_run_file(b),
        is_run_file(a) == (a.is_file && a.extension is Some && lowercased(a.extension->0@) == "run"@),
        !a.is_file ==> !is_run_file(a),
        a.extension is None ==> !is_run_file(a),
{
}

/// A file whose extension reads `run` in lower case.
pub open spec fn is_run_file(e: FolderEntry) -> bool {
    e.is_file && match e.extension {
        Some(x) => lowercased(x@) == "run"@,
        None => false,
    }
}

/// Whether the entry is a run file.
pub fn is_run_entry(e: &FolderEntry) -> (r: bool)
    ensures
        r == is_run_file(*e),
{
    if !e.is_file {
        return false;
    }
    match &e.extension {
        Some(x) => {
            let lower = to_lowercase(x.as_str());
            same_text(lower.as_str(), "run")
        },
        None => false,
    }
}

/// The positions `order` lists are sorted by path, entries with equal paths
/// in the order they were found.
pub open spec fn sorted_by_path(entries: Seq<FolderEntry>, order: Seq<usize>) -> bool {
    &&& forall|i: int, j: int|
        0 <= i < j < order.len() ==> path_le(
            #[trigger] entry_path(entries[order[i] as int]),
            #[trigger] entry_path(entries[order[j] as int]),
        )
    &&& forall|i: int, j: int|
        0 <= i < j < order.len() && entry_path(entries[order[i] as int])
            == entry_path(entries[order[j] as int]) ==> order[i] < order[j]
}

/// The run files among the entries found in the run folders, as positions
/// in `entries`, sorted by path: each run file once, nothing else, in path
/// order, entries with equal paths in the order they were found.
pub fn select_run_files(entries: &Vec<FolderEntry>) -> (r: Vec<usize>)
    ensures
        r@.no_duplicates(),
        forall|k: usize| r@.contains(k) <==> (k < entries.len() && is_run_file(entries@[k as int])),
        sorted_by_path(entries@, r@),
{
    let mut order: Vec<usize> = Vec::new();
    let mut i: usize = 0;
    while i < entries.len()
        invariant
            i <= entries.len(),
            order@.no_duplicates(),
            forall|k: usize| order@.contains(k) <==> (k < i && is_run_file(entries@[k as int])),
            sorted_by_path(entries@, order@),
        decreases entries.len() - i,
    {
        if is_run_entry(&entries[i]) {
            let key = &entries[i].components;
            let mut p = order.len();
            assert forall|q: int| 0 <= q < order@.len() implies order@[q] < entries.len() by {
                assert(order@.contains(order@[q]));
            }
            while p > 0 && path_less(key, &entries[order[p - 1]].components)
                invariant
                    p <= order.len(),
                    forall|q: int| 0 <= q < order@.len() ==> order@[q] < entries.len(),
                    forall|q: int|
                        p <= q < order@.len() ==> path_lt(
                            parts_view(key@),
                            #[trigger] entry_path(entries@[order@[q] as int]),
                        ),
                    key == entries@[i as int].components,
                    i < entries.len(),
                decreases p,
            {
                p = p - 1;
            }
            let ghost old_order = order@;
            let ghost kv = parts_view(key@);
            proof {
                assert forall|q: int| 0 <= q < p implies path_le(
                    #[trigger] entry_path(entries@[old_order[q] as int]),
                    kv,
                ) by {
                    if p > 0 {
                        let last = entry_path(entries@[old_order[p - 1] as int]);
                        assert(!path_lt(kv, last));
                        if q < p - 1 {
                            lemma_path_le_transitive(
                                entry_path(entries@[old_order[q] as int]),
                                last,
                                kv,
                            );
                        }
                    }
                }
            }
            order.insert(p, i);
            proof {
                let n = order@;
                assert(n =~= old_order.subrange(0, p as int).push(i) + old_order.subrange(
                    p as int,
                    old_order.len() as int,
                ));
                assert forall|a: int, b: int| 0 <= a < b < n.len() implies path_le(
                    #[trigger] entry_path(entries@[n[a] as int]),
                    #[trigger] entry_path(entries@[n[b] as int]),
                ) by {
                    if b < p {
                        assert(n[a] == old_order[a] && n[b] == old_order[b]);
                    } else if b == p {
                        assert(n[a] == old_order[a]);
                    } else if a == p {
                        assert(n[b] == old_order[b - 1]);
                        lemma_path_lt_irreflexive(kv);
                        lemma_path_lt_total(kv, entry_path(entries@[n[b] as int]));
                        if path_lt(entry_path(entries@[n[b] as int]), kv) {
                            lemma_path_lt_transitive(
                                kv,
                                entry_path(entries@[n[b] as int]),
                                kv,
                            );
                        }
                    } else if a < p {
                        assert(n[a] == old_order[a] && n[b] == old_order[b - 1]);
                        let ka = entry_path(entries@[n[a] as int]);
                        let kb = entry_path(entries@[n[b] as int]);
                        assert(path_le(ka, kv));
                        assert(path_lt(kv, kb));
                        if path_lt(kb, ka) {
                            lemma_path_lt_le(kv, kb, ka);
                            lemma_path_lt_irreflexive(kv);
                            assert(path_le(ka, kv));
                        }
                    } else {
                        assert(n[a] == old_order[a - 1] && n[b] == old_order[b - 1]);
                    }
                }
                assert forall|a: int, b: int|
                    0 <= a < b < n.len() && entry_path(entries@[n[a] as int])
                        == entry_path(entries@[n[b] as int]) implies n[a] < n[b] by {
                    if b < p {
                        assert(n[a] == old_order[a] && n[b] == old_order[b]);
                    } else if b == p {
                        assert(n[a] == old_order[a]);
                        assert(old_order.contains(n[a]));
                    } else if a == p {
                        assert(n[b] == old_order[b - 1]);
                        lemma_path_lt_irreflexive(kv);
                    } else if a < p {
                        assert(n[a] == old_order[a] && n[b] == old_order[b - 1]);
                    } else {
                        assert(n[a] == old_order[a - 1] && n[b] == old_order[b - 1]);
                    }
                }
                assert forall|k: usize| n.contains(k) <==> (k < i + 1 && is_run_file(
                    entries@[k as int],
                )) by {
                    if n.contains(k) {
                        let t = choose|t: int| 0 <= t < n.len() && n[t] == k;
                        if t < p {
                            assert(old_order[t] == k);
                            assert(old_order.contains(k));
                        } else if t > p {
                            assert(old_order[t - 1] == k);
                            assert(old_order.contains(k));
                        } else {
                            assert(n[p as int] == i);
                        }
                    }
                    if k < i + 1 && is_run_file(entries@[k as int]) {
                        if k == i {
                            assert(n[p as int] == k);
                        } else {
                            assert(old_order.contains(k));
                            let t = choose|t: int| 0 <= t < old_order.len() && old_order[t] == k;
                            if t < p {
                                assert(n[t] == k);
                            } else {
                                assert(n[t + 1] == k);
                            }
                        }
                    }
                }
                assert forall|a: int, b: int| 0 <= a < n.len() && 0 <= b < n.len() && a != b implies n[a]
                    != n[b] by {
                    if a != p && b != p {
                        let a0 = if a < p { a } else { a - 1 };
                        let b0 = if b < p { b } else { b - 1 };
                        assert(n[a] == old_order[a0] && n[b] == old_order[b0]);
                    } else if a == p {
                        let b0 = if b < p { b } else { b - 1 };
                        assert(n[b] == old_order[b0]);
                        assert(old_order.contains(n[b]));
                    } else {
                        let a0 = if a < p { a } else { a - 1 };
                        assert(n[a] == old_order[a0]);
                        assert(old_order.contains(n[a]));
                    }
                }
            }
        } else {
            assert forall|k: usize| order@.contains(k) <==> (k < i + 1 && is_run_file(
                entries@[k as int],
            )) by {}
        }
        i = i + 1;
    }
    order
}

} // verus!
