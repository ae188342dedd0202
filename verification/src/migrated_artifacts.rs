//! Which artifacts a migration changed: the regular files whose recorded entries differ
//! between the source tree and the migrated tree, found before any change of the
//! artifact set or of an entry's kind.
use vstd::prelude::*;

use crate::migration::{MigrationError, RunTreeEntry};
use crate::eval_engine::strings_view;
use crate::text::{append_chars, chars_of, seq_eq, string_of};

verus! {

/// The byte order of paths: lexicographic, a proper prefix first.
pub open spec fn bytes_lt(a: Seq<u8>, b: Seq<u8>) -> bool
    decreases a.len(),
{
    if a.len() == 0 {
        b.len() > 0
    } else if b.len() == 0 {
        false
    } else if a[0] != b[0] {
        a[0] < b[0]
    } else {
        bytes_lt(a.skip(1), b.skip(1))
    }
}

pub proof fn lemma_bytes_lt_irreflexive(a: Seq<u8>)
    ensures
        !bytes_lt(a, a),
    decreases a.len(),
{
    if a.len() > 0 {
        lemma_bytes_lt_irreflexive(a.skip(1));
    }
}

pub proof fn lemma_bytes_lt_transitive(a: Seq<u8>, b: Seq<u8>, c: Seq<u8>)
    requires
        bytes_lt(a, b),
        bytes_lt(b, c),
    ensures
        bytes_lt(a, c),
    decreases a.len(),
{
    if a.len() > 0 && b.len() > 0 && c.len() > 0 && a[0] == b[0] && b[0] == c[0] {
        lemma_bytes_lt_transitive(a.skip(1), b.skip(1), c.skip(1));
    }
}

pub proof fn lemma_bytes_lt_total(a: Seq<u8>, b: Seq<u8>)
    requires
        a != b,
    ensures
        bytes_lt(a, b) || bytes_lt(b, a),
    decreases a.len(),
{
    if a.len() > 0 && b.len() > 0 && a[0] == b[0] {
        if a.skip(1) == b.skip(1) {
            assert(a =~= seq![a[0]] + a.skip(1));
            assert(b =~= seq![b[0]] + b.skip(1));
        }
        lemma_bytes_lt_total(a.skip(1), b.skip(1));
    } else if a.len() == 0 && b.len() == 0 {
        assert(a =~= b);
    }
}

/// Whether `a` comes before `b` in byte order.
pub fn bytes_less(a: &Vec<u8>, b: &Vec<u8>) -> (r: bool)
    ensures
        r == bytes_lt(a@, b@),
{
    let mut i: usize = 0;
    assert(a@.skip(0) =~= a@);
    assert(b@.skip(0) =~= b@);
    while i < a.len() && i < b.len() && a[i] == b[i]
        invariant
            i <= a.len(),
            i <= b.len(),
            bytes_lt(a@, b@) == bytes_lt(a@.skip(i as int), b@.skip(i as int)),
        decreases a.len() - i,
    {
        assert(a@.skip(i as int).skip(1) =~= a@.skip(i + 1));
        assert(b@.skip(i as int).skip(1) =~= b@.skip(i + 1));
        i = i + 1;
    }
    if i == a.len() {
        i < b.len()
    } else if i == b.len() {
        false
    } else {
        a[i] < b[i]
    }
}

fn same_bytes(a: &Vec<u8>, b: &Vec<u8>) -> (r: bool)
    ensures
        r == (a@ == b@),
{
    if a.len() != b.len() {
        return false;
    }
    let mut i: usize = 0;
    while i < a.len()
        invariant
            a.len() == b.len(),
            i <= a.len(),
            forall|j: int| 0 <= j < i ==> a@[j] == b@[j],
        decreases a.len() - i,
    {
        if a[i] != b[i] {
            return false;
        }
        i = i + 1;
    }
    assert(a@ =~= b@);
    true
}

/// A run tree entry as plain values.
pub enum EntryView {
    Directory,
    File(u64, Seq<u8>),
    Symlink(Seq<u8>),
}

pub open spec fn entry_view(e: RunTreeEntry) -> EntryView {
    match e {
        RunTreeEntry::Directory => EntryView::Directory,
        RunTreeEntry::File { len, digest } => EntryView::File(len, digest@),
        RunTreeEntry::Symlink(target) => EntryView::Symlink(target@),
    }
}

fn same_entry(a: &RunTreeEntry, b: &RunTreeEntry) -> (r: bool)
    ensures
        r == (entry_view(*a) == entry_view(*b)),
{
    match (a, b) {
        (RunTreeEntry::Directory, RunTreeEntry::Directory) => true,
        (RunTreeEntry::File { len: l1, digest: d1 }, RunTreeEntry::File { len: l2, digest: d2 }) => *l1 == *l2
            && same_bytes(d1, d2),
        (RunTreeEntry::Symlink(t1), RunTreeEntry::Symlink(t2)) => same_bytes(t1, t2),
        _ => false,
    }
}

/// The entry of a tree at a path (the first one listed there).
pub open spec fn lookup(tree: Seq<(Vec<u8>, RunTreeEntry)>, path: Seq<u8>) -> Option<EntryView>
    decreases tree.len(),
{
    if tree.len() == 0 {
        None
    } else if tree[0].0@ == path {
        Some(entry_view(tree[0].1))
    } else {
        lookup(tree.skip(1), path)
    }
}

proof fn lemma_lookup_skip(tree: Seq<(Vec<u8>, RunTreeEntry)>, path: Seq<u8>, i: int)
    requires
        0 <= i < tree.len(),
        tree[i].0@ != path,
    ensures
        lookup(tree.skip(i), path) == lookup(tree.skip(i + 1), path),
{
    assert(tree.skip(i)[0] == tree[i]);
    assert(tree.skip(i).skip(1) =~= tree.skip(i + 1));
}

fn find_entry(tree: &Vec<(Vec<u8>, RunTreeEntry)>, path: &Vec<u8>) -> (r: Option<usize>)
    ensures
        match r {
            Some(i) => i < tree.len() && lookup(tree@, path@) == Some(entry_view(tree@[i as int].1)),
            None => lookup(tree@, path@) is None,
        },
{
    let mut i: usize = 0;
    assert(tree@.skip(0) =~= tree@);
    while i < tree.len()
        invariant
            i <= tree.len(),
            lookup(tree@, path@) == lookup(tree@.skip(i as int), path@),
        decreases tree.len() - i,
    {
        if same_bytes(&tree[i].0, path) {
            assert(tree@.skip(i as int)[0] == tree@[i as int]);
            return Some(i);
        }
        proof {
            lemma_lookup_skip(tree@, path@, i as int);
        }
        i = i + 1;
    }
    assert(tree@.skip(tree.len() as int) =~= Seq::<(Vec<u8>, RunTreeEntry)>::empty());
    None
}

/// A string's characters as bytes, for ASCII names.
pub open spec fn ascii(s: Seq<char>) -> Seq<u8> {
    s.map_values(|c: char| c as u8)
}

/// The migration result file, the one addition that a migration makes.
pub open spec fn result_path() -> Seq<u8> {
    ascii("migration-v0-v1.result.json"@)
}

/// The staged-ownership marker, which a migrated tree may hold and a source tree may not.
pub open spec fn ownership_path() -> Seq<u8> {
    ascii(".migration-v0-v1.owner.json"@)
}

pub open spec fn is_file_entry(e: Option<EntryView>) -> bool {
    e matches Some(EntryView::File(_, _))
}

/// A path other than the result file and the marker whose entry differs between the
/// source tree `o` and the migrated tree `m` (present in one only, or different).
pub open spec fn differs(o: Seq<(Vec<u8>, RunTreeEntry)>, m: Seq<(Vec<u8>, RunTreeEntry)>, p: Seq<u8>) -> bool {
    &&& p != result_path()
    &&& p != ownership_path()
    &&& lookup(o, p) != lookup(m, p)
}

/// A regular file that the migration rewrote.
pub open spec fn changed_file(o: Seq<(Vec<u8>, RunTreeEntry)>, m: Seq<(Vec<u8>, RunTreeEntry)>, p: Seq<u8>) -> bool {
    differs(o, m, p) && is_file_entry(lookup(o, p)) && is_file_entry(lookup(m, p))
}

/// A change of the artifact set or of an entry's kind, which a migration may not make.
pub open spec fn changed_kind(o: Seq<(Vec<u8>, RunTreeEntry)>, m: Seq<(Vec<u8>, RunTreeEntry)>, p: Seq<u8>) -> bool {
    differs(o, m, p) && !(is_file_entry(lookup(o, p)) && is_file_entry(lookup(m, p)))
}

/// No path of either tree that comes before `p` changed its kind.
pub open spec fn before_kind_changes(
    o: Seq<(Vec<u8>, RunTreeEntry)>,
    m: Seq<(Vec<u8>, RunTreeEntry)>,
    p: Seq<u8>,
) -> bool {
    &&& forall|i: int| 0 <= i < o.len() && #[trigger] changed_kind(o, m, o[i].0@) ==> !bytes_lt(o[i].0@, p)
    &&& forall|i: int| 0 <= i < m.len() && #[trigger] changed_kind(o, m, m[i].0@) ==> !bytes_lt(m[i].0@, p)
}

/// Some path of either tree changed its kind.
pub open spec fn has_kind_change(o: Seq<(Vec<u8>, RunTreeEntry)>, m: Seq<(Vec<u8>, RunTreeEntry)>) -> bool {
    ||| exists|i: int| 0 <= i < o.len() && #[trigger] changed_kind(o, m, o[i].0@)
    ||| exists|i: int| 0 <= i < m.len() && #[trigger] changed_kind(o, m, m[i].0@)
}

/// The changed regular files among the first `n` paths of the source tree, in its order,
/// that come before every change of kind.
pub open spec fn changed_files_upto(o: Seq<(Vec<u8>, RunTreeEntry)>, m: Seq<(Vec<u8>, RunTreeEntry)>, n: int) -> Seq<
    Seq<u8>,
>
    decreases n,
{
    if n <= 0 {
        seq![]
    } else {
        let prev = changed_files_upto(o, m, n - 1);
        let p = o[n - 1].0@;
        if changed_file(o, m, p) && before_kind_changes(o, m, p) {
            prev.push(p)
        } else {
            prev
        }
    }
}

pub open spec fn changed_files(o: Seq<(Vec<u8>, RunTreeEntry)>, m: Seq<(Vec<u8>, RunTreeEntry)>) -> Seq<Seq<u8>> {
    changed_files_upto(o, m, o.len() as int)
}

/// The refusal of a migrated tree whose additions are not exactly the result file, or of
/// a source tree that holds the reserved marker.
pub open spec fn artifact_set_error(o: Seq<(Vec<u8>, RunTreeEntry)>, m: Seq<(Vec<u8>, RunTreeEntry)>) -> Option<
    Seq<char>,
> {
    if lookup(o, result_path()) is Some || !is_file_entry(lookup(m, result_path())) {
        Some("migration result path must be the only new regular file in the migrated tree"@)
    } else if lookup(o, ownership_path()) is Some {
        Some("original migration authority contains the reserved staged ownership marker"@)
    } else {
        None
    }
}

pub open spec fn bytes_views(v: Seq<Vec<u8>>) -> Seq<Seq<u8>> {
    v.map_values(|x: Vec<u8>| x@)
}

fn ascii_vec(s: &str) -> (r: Vec<u8>)
    ensures
        r@ == ascii(s@),
{
    let c = chars_of(s);
    let mut r: Vec<u8> = Vec::new();
    let mut i: usize = 0;
    while i < c.len()
        invariant
            i <= c.len(),
            c@ == s@,
            r@ == ascii(c@.take(i as int)),
        decreases c.len() - i,
    {
        r.push(c[i] as u8);
        assert(ascii(c@.take(i + 1)) =~= ascii(c@.take(i as int)).push(c@[i as int] as u8));
        i = i + 1;
    }
    assert(c@.take(c.len() as int) =~= c@);
    r
}

/// How the entry at `path` changed: (its kind changed, it is a rewritten regular file).
fn classify(
    o: &Vec<(Vec<u8>, RunTreeEntry)>,
    m: &Vec<(Vec<u8>, RunTreeEntry)>,
    path: &Vec<u8>,
    result: &Vec<u8>,
    ownership: &Vec<u8>,
) -> (r: (bool, bool))
    requires
        result@ == result_path(),
        ownership@ == ownership_path(),
    ensures
        r.0 == changed_kind(o@, m@, path@),
        r.1 == changed_file(o@, m@, path@),
{
    if same_bytes(path, result) || same_bytes(path, ownership) {
        return (false, false);
    }
    match (find_entry(o, path), find_entry(m, path)) {
        (None, None) => (false, false),
        (Some(i), Some(j)) => {
            if same_entry(&o[i].1, &m[j].1) {
                (false, false)
            } else {
                let both_files = match (&o[i].1, &m[j].1) {
                    (RunTreeEntry::File { .. }, RunTreeEntry::File { .. }) => true,
                    _ => false,
                };
                (!both_files, both_files)
            }
        },
        _ => (true, false),
    }
}

proof fn lemma_before_kind_changes(
    o: Seq<(Vec<u8>, RunTreeEntry)>,
    m: Seq<(Vec<u8>, RunTreeEntry)>,
    p: Seq<u8>,
    best: Option<Seq<u8>>,
)
    requires
        changed_file(o, m, p),
        best is None ==> !has_kind_change(o, m),
        best matches Some(b) ==> {
            &&& changed_kind(o, m, b)
            &&& (exists|i: int| 0 <= i < o.len() && o[i].0@ == b) || (exists|i: int| 0 <= i < m.len() && m[i].0@ == b)
            &&& forall|i: int| 0 <= i < o.len() && #[trigger] changed_kind(o, m, o[i].0@) ==> !bytes_lt(o[i].0@, b)
            &&& forall|i: int| 0 <= i < m.len() && #[trigger] changed_kind(o, m, m[i].0@) ==> !bytes_lt(m[i].0@, b)
        },
    ensures
        before_kind_changes(o, m, p) == (best is None || bytes_lt(p, best->0)),
{
    match best {
        None => {},
        Some(b) => {
            if bytes_lt(p, b) {
                assert forall|i: int| 0 <= i < o.len() && #[trigger] changed_kind(o, m, o[i].0@) implies !bytes_lt(
                    o[i].0@,
                    p,
                ) by {
                    if bytes_lt(o[i].0@, p) {
                        lemma_bytes_lt_transitive(o[i].0@, p, b);
                    }
                }
                assert forall|i: int| 0 <= i < m.len() && #[trigger] changed_kind(o, m, m[i].0@) implies !bytes_lt(
                    m[i].0@,
                    p,
                ) by {
                    if bytes_lt(m[i].0@, p) {
                        lemma_bytes_lt_transitive(m[i].0@, p, b);
                    }
                }
            } else {
                assert(b != p);
                lemma_bytes_lt_total(p, b);
                if exists|i: int| 0 <= i < o.len() && o[i].0@ == b {
                    let i = choose|i: int| 0 <= i < o.len() && o[i].0@ == b;
                    assert(changed_kind(o, m, o[i].0@));
                } else {
                    let i = choose|i: int| 0 <= i < m.len() && m[i].0@ == b;
                    assert(changed_kind(o, m, m[i].0@));
                }
            }
        },
    }
}

/// What a migration changed, given the source and migrated trees (each listing its
/// entries by path in byte order, each once): the refusal of a tree whose artifact set
/// is wrong; otherwise the rewritten regular files, in path order, that come before the
/// first change of the artifact set or of an entry's kind, and whether there is one.
pub fn migrated_artifact_changes(
    original: &Vec<(Vec<u8>, RunTreeEntry)>,
    migrated: &Vec<(Vec<u8>, RunTreeEntry)>,
) -> (r: Result<(Vec<Vec<u8>>, bool), MigrationError>)
    ensures
        match artifact_set_error(original@, migrated@) {
            Some(e) => r matches Err(x) && x.message@ == e,
            None => r matches Ok((changed, kind)) && bytes_views(changed@) == changed_files(original@, migrated@)
                && kind == has_kind_change(original@, migrated@),
        },
{
    let ghost o = original@;
    let ghost m = migrated@;
    let result = ascii_vec("migration-v0-v1.result.json");
    let ownership = ascii_vec(".migration-v0-v1.owner.json");
    let result_is_new_file = match find_entry(original, &result) {
        Some(_) => false,
        None => match find_entry(migrated, &result) {
            Some(j) => match &migrated[j].1 {
                RunTreeEntry::File { .. } => true,
                _ => false,
            },
            None => false,
        },
    };
    if !result_is_new_file {
        return Err(
            MigrationError::new(
                string_of(&chars_of("migration result path must be the only new regular file in the migrated tree")),
            ),
        );
    }
    if find_entry(original, &ownership).is_some() {
        return Err(
            MigrationError::new(
                string_of(&chars_of("original migration authority contains the reserved staged ownership marker")),
            ),
        );
    }
    let mut best: Option<Vec<u8>> = None;
    let mut i: usize = 0;
    while i < original.len()
        invariant
            i <= original.len(),
            o == original@,
            m == migrated@,
            result@ == result_path(),
            ownership@ == ownership_path(),
            best is None ==> forall|k: int| 0 <= k < i ==> !#[trigger] changed_kind(o, m, o[k].0@),
            best matches Some(b) ==> {
                &&& changed_kind(o, m, b@)
                &&& exists|k: int| 0 <= k < i && o[k].0@ == b@
                &&& forall|k: int| 0 <= k < i && #[trigger] changed_kind(o, m, o[k].0@) ==> !bytes_lt(o[k].0@, b@)
            },
        decreases original.len() - i,
    {
        let (kind, _) = classify(original, migrated, &original[i].0, &result, &ownership);
        if kind {
            let replace = match &best {
                None => true,
                Some(b) => bytes_less(&original[i].0, b),
            };
            if replace {
                proof {
                    if let Some(b) = best {
                        assert forall|k: int| 0 <= k < i + 1 && #[trigger] changed_kind(o, m, o[k].0@) implies !bytes_lt(
                            o[k].0@,
                            o[i as int].0@,
                        ) by {
                            if k < i && bytes_lt(o[k].0@, o[i as int].0@) {
                                lemma_bytes_lt_transitive(o[k].0@, o[i as int].0@, b@);
                            }
                            if k == i {
                                lemma_bytes_lt_irreflexive(o[k].0@);
                            }
                        }
                    } else {
                        assert forall|k: int| 0 <= k < i + 1 && #[trigger] changed_kind(o, m, o[k].0@) implies !bytes_lt(
                            o[k].0@,
                            o[i as int].0@,
                        ) by {
                            lemma_bytes_lt_irreflexive(o[k].0@);
                        }
                    }
                }
                best = Some(original[i].0.clone());
            } else {
                proof {
                    let b = best->0;
                    if original@[i as int].0@ != b@ {
                        lemma_bytes_lt_total(original@[i as int].0@, b@);
                    }
                }
            }
        }
        i = i + 1;
    }
    let mut j: usize = 0;
    while j < migrated.len()
        invariant
            j <= migrated.len(),
            o == original@,
            m == migrated@,
            result@ == result_path(),
            ownership@ == ownership_path(),
            best is None ==> forall|k: int| 0 <= k < o.len() ==> !#[trigger] changed_kind(o, m, o[k].0@),
            best is None ==> forall|k: int| 0 <= k < j ==> !#[trigger] changed_kind(o, m, m[k].0@),
            best matches Some(b) ==> {
                &&& changed_kind(o, m, b@)
                &&& (exists|k: int| 0 <= k < o.len() && o[k].0@ == b@) || (exists|k: int| 0 <= k < j && m[k].0@ == b@)
                &&& forall|k: int| 0 <= k < o.len() && #[trigger] changed_kind(o, m, o[k].0@) ==> !bytes_lt(o[k].0@, b@)
                &&& forall|k: int| 0 <= k < j && #[trigger] changed_kind(o, m, m[k].0@) ==> !bytes_lt(m[k].0@, b@)
            },
        decreases migrated.len() - j,
    {
        let (kind, _) = classify(original, migrated, &migrated[j].0, &result, &ownership);
        if kind {
            let replace = match &best {
                None => true,
                Some(b) => bytes_less(&migrated[j].0, b),
            };
            if replace {
                proof {
                    let p = m[j as int].0@;
                    if let Some(b) = best {
                        assert forall|k: int| 0 <= k < o.len() && #[trigger] changed_kind(o, m, o[k].0@) implies !bytes_lt(
                            o[k].0@,
                            p,
                        ) by {
                            if bytes_lt(o[k].0@, p) {
                                lemma_bytes_lt_transitive(o[k].0@, p, b@);
                            }
                        }
                        assert forall|k: int| 0 <= k < j + 1 && #[trigger] changed_kind(o, m, m[k].0@) implies !bytes_lt(
                            m[k].0@,
                            p,
                        ) by {
                            if k < j && bytes_lt(m[k].0@, p) {
                                lemma_bytes_lt_transitive(m[k].0@, p, b@);
                            }
                            if k == j {
                                lemma_bytes_lt_irreflexive(p);
                            }
                        }
                    } else {
                        assert forall|k: int| 0 <= k < j + 1 && #[trigger] changed_kind(o, m, m[k].0@) implies !bytes_lt(
                            m[k].0@,
                            p,
                        ) by {
                            lemma_bytes_lt_irreflexive(p);
                        }
                    }
                    assert(m[j as int].0@ == p);
                }
                best = Some(migrated[j].0.clone());
            } else {
                proof {
                    let b = best->0;
                    if migrated@[j as int].0@ != b@ {
                        lemma_bytes_lt_total(migrated@[j as int].0@, b@);
                    }
                }
            }
        }
        j = j + 1;
    }
    let ghost best_key: Option<Seq<u8>> = match &best {
        Some(b) => Some(b@),
        None => None,
    };
    let mut changed: Vec<Vec<u8>> = Vec::new();
    let mut k: usize = 0;
    while k < original.len()
        invariant
            k <= original.len(),
            o == original@,
            m == migrated@,
            result@ == result_path(),
            ownership@ == ownership_path(),
            best_key == match best {
                Some(b) => Some(b@),
                None => None::<Seq<u8>>,
            },
            best_key is None ==> !has_kind_change(o, m),
            best_key matches Some(b) ==> {
                &&& changed_kind(o, m, b)
                &&& (exists|i: int| 0 <= i < o.len() && o[i].0@ == b) || (exists|i: int| 0 <= i < m.len() && m[i].0@ == b)
                &&& forall|i: int| 0 <= i < o.len() && #[trigger] changed_kind(o, m, o[i].0@) ==> !bytes_lt(o[i].0@, b)
                &&& forall|i: int| 0 <= i < m.len() && #[trigger] changed_kind(o, m, m[i].0@) ==> !bytes_lt(m[i].0@, b)
            },
            bytes_views(changed@) == changed_files_upto(o, m, k as int),
        decreases original.len() - k,
    {
        let (_, file) = classify(original, migrated, &original[k].0, &result, &ownership);
        if file {
            let keep = match &best {
                None => true,
                Some(b) => bytes_less(&original[k].0, b),
            };
            proof {
                lemma_before_kind_changes(o, m, o[k as int].0@, best_key);
            }
            if keep {
                let ghost before = bytes_views(changed@);
                changed.push(original[k].0.clone());
                assert(bytes_views(changed@) =~= before.push(o[k as int].0@));
            }
        }
        k = k + 1;
    }
    Ok((changed, best.is_some()))
}

/// `format!("{:?}", items)`: a list of strings as `Debug` prints it.
pub uninterp spec fn debug_string_list(items: Seq<Seq<char>>) -> Seq<char>;

/// `<[String] as Debug>::fmt`, through `format!("{:?}", items)`: the contract names the
/// printed text, a function of the strings alone.
#[verifier::external_body]
fn debug_list(items: &[String]) -> (r: String)
    ensures
        r@ == debug_string_list(strings_view(items@)),
{
    format!("{items:?}")
}

fn same_strings(a: &[String], b: &[String]) -> (r: bool)
    ensures
        r == (strings_view(a@) == strings_view(b@)),
{
    if a.len() != b.len() {
        assert(strings_view(a@).len() != strings_view(b@).len());
        return false;
    }
    let mut i: usize = 0;
    while i < a.len()
        invariant
            a.len() == b.len(),
            i <= a.len(),
            forall|j: int| 0 <= j < i ==> a@[j]@ == b@[j]@,
        decreases a.len() - i,
    {
        if !seq_eq(&chars_of(a[i].as_str()), &chars_of(b[i].as_str())) {
            assert(strings_view(a@)[i as int] != strings_view(b@)[i as int]);
            return false;
        }
        i = i + 1;
    }
    assert(strings_view(a@) =~= strings_view(b@));
    true
}

/// The last check of a migrated tree, once its changed files have been read as portable
/// paths: a change of the artifact set or of an entry's kind is refused; otherwise the
/// artifact list that the migration result reports must be the changed set, in order.
pub fn check_changed_artifacts(kind_changed: bool, reported: &[String], actual: &[String]) -> (r: Result<
    (),
    MigrationError,
>)
    ensures
        kind_changed ==> (r matches Err(e) && e.message@
            == "migration changed the source/backup artifact set or an entry type"@),
        !kind_changed && strings_view(reported@) == strings_view(actual@) ==> r is Ok,
        !kind_changed && strings_view(reported@) != strings_view(actual@) ==> (r matches Err(e) && e.message@
            == "migration result artifact list does not match the deterministic changed set: reported="@
            + debug_string_list(strings_view(reported@)) + ", actual="@ + debug_string_list(strings_view(actual@))),
{
    if kind_changed {
        return Err(
            MigrationError::new(string_of(&chars_of("migration changed the source/backup artifact set or an entry type"))),
        );
    }
    if same_strings(reported, actual) {
        return Ok(());
    }
    let mut m = chars_of("migration result artifact list does not match the deterministic changed set: reported=");
    append_chars(&mut m, &chars_of(debug_list(reported).as_str()));
    append_chars(&mut m, &chars_of(", actual="));
    append_chars(&mut m, &chars_of(debug_list(actual).as_str()));
    Err(MigrationError::new(string_of(&m)))
}

} // verus!
