//! Repository path normalization and the fixed exclude-pattern language.
use vstd::prelude::*;

use crate::text::{
    all_chars, chars_of, contains_seq, ends_with, find_char, has_prefix, has_suffix, is_ws,
    seq_eq, slice_of, trim_end, trim_start, split_once, starts_with, strip_prefix, strip_prefix_exec, strip_suffix,
    strip_suffix_exec, string_of, trim, trim_bounds, trim_exec,
};

verus! {

/// The patterns that are always excluded from repository context.
pub open spec fn default_patterns() -> Seq<Seq<char>> {
    seq![
        ".env*"@,
        "secrets/**"@,
        "infra/signing/**"@,
        "*.pem"@,
        "*.key"@,
        "*.p12"@,
        "node_modules/**"@,
        "target/**"@,
        "dist/**"@,
        ".git/**"@,
        ".seaf/**"@,
    ]
}

pub open spec fn string_views(v: Seq<String>) -> Seq<Seq<char>> {
    v.map_values(|s: String| s@)
}

pub fn default_exclude_patterns() -> (r: Vec<String>)
    ensures
        string_views(r@) == default_patterns(),
{
    let mut r: Vec<String> = Vec::new();
    r.push(String::from_str(".env*"));
    r.push(String::from_str("secrets/**"));
    r.push(String::from_str("infra/signing/**"));
    r.push(String::from_str("*.pem"));
    r.push(String::from_str("*.key"));
    r.push(String::from_str("*.p12"));
    r.push(String::from_str("node_modules/**"));
    r.push(String::from_str("target/**"));
    r.push(String::from_str("dist/**"));
    r.push(String::from_str(".git/**"));
    r.push(String::from_str(".seaf/**"));
    assert(string_views(r@) =~= default_patterns());
    r
}

/// Splitting on a separator character: the pieces seen so far and the piece in progress.
pub open spec fn split_state(s: Seq<char>, sep: char) -> (Seq<Seq<char>>, Seq<char>)
    decreases s.len(),
{
    if s.len() == 0 {
        (seq![], seq![])
    } else {
        let (done, cur) = split_state(s.drop_last(), sep);
        if s.last() == sep {
            (done.push(cur), seq![])
        } else {
            (done, cur.push(s.last()))
        }
    }
}

/// `str::split` on one character: every piece, empty ones included.
pub open spec fn split_char(s: Seq<char>, sep: char) -> Seq<Seq<char>> {
    let (done, cur) = split_state(s, sep);
    done.push(cur)
}

pub open spec fn seq_views(v: Seq<Vec<char>>) -> Seq<Seq<char>> {
    v.map_values(|x: Vec<char>| x@)
}

pub fn split_char_exec(s: &Vec<char>, sep: char) -> (r: Vec<Vec<char>>)
    ensures
        seq_views(r@) == split_char(s@, sep),
{
    let mut done: Vec<Vec<char>> = Vec::new();
    let mut cur: Vec<char> = Vec::new();
    let mut i: usize = 0;
    while i < s.len()
        invariant
            i <= s.len(),
            (seq_views(done@), cur@) == split_state(s@.take(i as int), sep),
        decreases s.len() - i,
    {
        assert(s@.take(i + 1).drop_last() =~= s@.take(i as int));
        if s[i] == sep {
            let finished = cur;
            cur = Vec::new();
            done.push(finished);
            assert(seq_views(done@) =~= seq_views(done@.drop_last()).push(finished@));
        } else {
            cur.push(s[i]);
        }
        i = i + 1;
    }
    assert(s@.take(s.len() as int) =~= s@);
    let last = cur;
    done.push(last);
    assert(seq_views(done@) =~= seq_views(done@.drop_last()).push(last@));
    done
}

/// A path component that `Path::components` drops (`""` between separators, or `.`).
pub open spec fn is_skipped_component(c: Seq<char>) -> bool {
    c.len() == 0 || c == seq!['.']
}

pub open spec fn is_parent_component(c: Seq<char>) -> bool {
    c == seq!['.', '.']
}

/// The components that survive normalization, in order.
pub open spec fn kept_components(parts: Seq<Seq<char>>) -> Seq<Seq<char>>
    decreases parts.len(),
{
    if parts.len() == 0 {
        seq![]
    } else {
        let rest = kept_components(parts.drop_last());
        if is_skipped_component(parts.last()) {
            rest
        } else {
            rest.push(parts.last())
        }
    }
}

/// The pieces joined with `/` between them.
pub open spec fn join_slash(parts: Seq<Seq<char>>) -> Seq<char>
    decreases parts.len(),
{
    if parts.len() == 0 {
        seq![]
    } else if parts.len() == 1 {
        parts[0]
    } else {
        join_slash(parts.drop_last()) + seq!['/'] + parts.last()
    }
}

/// Whether some piece is `..`.
pub open spec fn has_parent(parts: Seq<Seq<char>>) -> bool {
    exists|i: int| 0 <= i < parts.len() && is_parent_component(parts[i])
}

/// A portable relative repository path: no traversal, no root, no backslash,
/// and `.`/empty components dropped.
pub open spec fn normalize_repo_path_spec(path: Seq<char>) -> Option<Seq<char>> {
    let parts = kept_components(split_char(path, '/'));
    if trim(path).len() == 0 || path.contains('\\') || path[0] == '/' || has_parent(parts)
        || parts.len() == 0 {
        None
    } else {
        Some(join_slash(parts))
    }
}

fn is_dot(c: &Vec<char>) -> (r: bool)
    ensures
        r == (c@ == seq!['.']),
{
    if c.len() == 1 && c[0] == '.' {
        assert(c@ =~= seq!['.']);
        true
    } else {
        false
    }
}

fn is_dot_dot(c: &Vec<char>) -> (r: bool)
    ensures
        r == is_parent_component(c@),
{
    let r = c.len() == 2 && c[0] == '.' && c[1] == '.';
    assert(r ==> c@ =~= seq!['.', '.']);
    r
}

fn contains_char(s: &Vec<char>, c: char) -> (r: bool)
    ensures
        r == s@.contains(c),
{
    let mut i: usize = 0;
    while i < s.len()
        invariant
            i <= s.len(),
            forall|j: int| 0 <= j < i ==> s@[j] != c,
        decreases s.len() - i,
    {
        if s[i] == c {
            return true;
        }
        i = i + 1;
    }
    false
}

fn normalize_chars(path: &Vec<char>) -> (r: Option<Vec<char>>)
    ensures
        match r {
            Some(v) => normalize_repo_path_spec(path@) == Some(v@),
            None => normalize_repo_path_spec(path@) is None,
        },
{
    let (a, b) = trim_bounds(path);
    if a == b || contains_char(path, '\\') || path[0] == '/' {
        return None;
    }
    let parts = split_char_exec(path, '/');
    let ghost all = seq_views(parts@);
    let mut kept: Vec<Vec<char>> = Vec::new();
    let mut out: Vec<char> = Vec::new();
    let mut i: usize = 0;
    while i < parts.len()
        invariant
            i <= parts.len(),
            all == seq_views(parts@),
            all == split_char(path@, '/'),
            all.len() == parts.len(),
            seq_views(kept@) == kept_components(all.take(i as int)),
            out@ == join_slash(seq_views(kept@)),
            !has_parent(seq_views(kept@)),
        decreases parts.len() - i,
    {
        assert(all.take(i + 1).drop_last() =~= all.take(i as int));
        assert(all[i as int] == parts[i as int]@);
        let part = &parts[i];
        if part.len() == 0 || is_dot(part) {
        } else {
            if is_dot_dot(part) {
                proof {
                    let k = seq_views(kept@).push(part@);
                    assert(kept_components(all.take(i + 1)) == k);
                    let full = kept_components(all);
                    lemma_kept_prefix(all, i as int + 1);
                    assert(full.subrange(0, k.len() as int) == k);
                    assert(k[k.len() - 1] == part@);
                    assert(full.subrange(0, k.len() as int)[k.len() - 1] == full[k.len() - 1]);
                    assert(is_parent_component(full[k.len() - 1]));
                    assert(has_parent(full));
                }
                return None;
            }
            let ghost before = seq_views(kept@);
            if kept.len() > 0 {
                out.push('/');
            }
            let mut j: usize = 0;
            let ghost base = out@;
            while j < part.len()
                invariant
                    j <= part.len(),
                    out@ == base + part@.take(j as int),
                decreases part.len() - j,
            {
                out.push(part[j]);
                assert(part@.take(j + 1) =~= part@.take(j as int).push(part@[j as int]));
                j = j + 1;
            }
            assert(part@.take(part.len() as int) =~= part@);
            kept.push(part.clone());
            assert(seq_views(kept@) =~= before.push(part@));
            assert(seq_views(kept@).drop_last() =~= before);
            assert forall|x: int| 0 <= x < seq_views(kept@).len() implies !is_parent_component(
                seq_views(kept@)[x],
            ) by {
                if x < before.len() {
                    assert(seq_views(kept@)[x] == before[x]);
                }
            }
        }
        i = i + 1;
    }
    assert(all.take(parts.len() as int) =~= all);
    if kept.len() == 0 {
        return None;
    }
    Some(out)
}

/// The pieces kept from a prefix of the input are a prefix of the pieces kept from all of it.
proof fn lemma_kept_prefix(parts: Seq<Seq<char>>, n: int)
    requires
        0 <= n <= parts.len(),
    ensures
        kept_components(parts.take(n)).len() <= kept_components(parts).len(),
        kept_components(parts).subrange(0, kept_components(parts.take(n)).len() as int)
            == kept_components(parts.take(n)),
    decreases parts.len() - n,
{
    if n < parts.len() {
        lemma_kept_prefix(parts, n + 1);
        assert(parts.take(n + 1).drop_last() =~= parts.take(n));
        let a = kept_components(parts.take(n));
        let b = kept_components(parts.take(n + 1));
        let f = kept_components(parts);
        assert(f.subrange(0, a.len() as int) =~= b.subrange(0, a.len() as int));
    } else {
        assert(parts.take(n) =~= parts);
        assert(kept_components(parts).subrange(0, kept_components(parts).len() as int)
            =~= kept_components(parts));
    }
}

/// Normalizes a relative repository path, refusing traversal, roots and backslashes.
pub fn normalize_repo_path(path: &str) -> (r: Option<String>)
    ensures
        match r {
            Some(s) => normalize_repo_path_spec(path@) == Some(s@),
            None => normalize_repo_path_spec(path@) is None,
        },
{
    let v = chars_of(path);
    match normalize_chars(&v) {
        Some(out) => Some(string_of(&out)),
        None => None,
    }
}

/// The part of a repository path after its last `/`.
pub open spec fn file_name(path: Seq<char>) -> Seq<char> {
    split_char(path, '/').last()
}

/// Whether the `/`-separated pieces of `prefix` occur consecutively among those of `path`.
pub open spec fn contains_component_sequence(path: Seq<char>, prefix: Seq<char>) -> bool {
    let p = split_char(path, '/');
    let q = split_char(prefix, '/');
    exists|i: int| window_at(p, q, i)
}

/// Whether `q` occurs in `p` starting at index `i`.
pub open spec fn window_at(p: Seq<Seq<char>>, q: Seq<Seq<char>>, i: int) -> bool {
    0 <= i && i + q.len() <= p.len() && p.subrange(i, i + q.len()) == q
}

/// How one exclude pattern classifies a normalized repository path.
pub open spec fn pattern_matches_spec(repo_path: Seq<char>, pattern: Seq<char>) -> bool {
    let pat = trim(pattern);
    if pat.len() == 0 {
        false
    } else if strip_suffix(pat, "/**"@) is Some {
        match normalize_repo_path_spec(strip_suffix(pat, "/**"@)->0) {
            Some(prefix) => contains_component_sequence(repo_path, prefix),
            None => true,
        }
    } else if strip_prefix(pat, "*."@) is Some {
        ends_with(file_name(repo_path), seq!['.'] + strip_prefix(pat, "*."@)->0)
    } else if strip_suffix(pat, "*"@) is Some && !strip_suffix(pat, "*"@)->0.contains('/')
        && !strip_suffix(pat, "*"@)->0.contains('*') {
        starts_with(file_name(repo_path), strip_suffix(pat, "*"@)->0)
    } else if pat.contains('*') {
        true
    } else {
        match normalize_repo_path_spec(pat) {
            Some(p) => repo_path == p,
            None => true,
        }
    }
}

fn seqs_eq(a: &Vec<Vec<char>>, b: &Vec<Vec<char>>, at: usize) -> (r: bool)
    requires
        at + b.len() <= a.len(),
    ensures
        r == (seq_views(a@).subrange(at as int, at + b.len()) == seq_views(b@)),
{
    let mut i: usize = 0;
    while i < b.len()
        invariant
            at + b.len() <= a.len(),
            i <= b.len(),
            forall|j: int| 0 <= j < i ==> a@[at + j]@ == b@[j]@,
        decreases b.len() - i,
    {
        if !seq_eq(&a[at + i], &b[i]) {
            assert(seq_views(a@).subrange(at as int, at + b.len())[i as int] != seq_views(b@)[i as int]);
            return false;
        }
        i = i + 1;
    }
    assert(seq_views(a@).subrange(at as int, at + b.len()) =~= seq_views(b@));
    true
}

fn contains_component_sequence_exec(path: &Vec<char>, prefix: &Vec<char>) -> (r: bool)
    ensures
        r == contains_component_sequence(path@, prefix@),
{
    let p = split_char_exec(path, '/');
    let q = split_char_exec(prefix, '/');
    let ghost ps = seq_views(p@);
    let ghost qs = seq_views(q@);
    if q.len() > p.len() {
        assert forall|j: int| !window_at(ps, qs, j) by {}
        return false;
    }
    assert(qs.len() == q.len());
    assert(ps.len() == p.len());
    let last = p.len() - q.len();
    let mut i: usize = 0;
    loop
        invariant
            q.len() <= p.len(),
            last == p.len() - q.len(),
            ps == seq_views(p@),
            qs == seq_views(q@),
            ps == split_char(path@, '/'),
            qs == split_char(prefix@, '/'),
            qs.len() == q.len(),
            ps.len() == p.len(),
            i <= last,
            forall|j: int| 0 <= j < i ==> !window_at(ps, qs, j),
        decreases last - i,
    {
        if seqs_eq(&p, &q, i) {
            assert(window_at(ps, qs, i as int));
            return true;
        }
        if i == last {
            assert forall|j: int| !window_at(ps, qs, j) by {
                if window_at(ps, qs, j) {
                    assert(j <= i);
                }
            }
            return false;
        }
        i = i + 1;
    }
}

fn file_name_exec(path: &Vec<char>) -> (r: Vec<char>)
    ensures
        r@ == file_name(path@),
{
    let parts = split_char_exec(path, '/');
    let n = parts.len();
    assert(seq_views(parts@).last() == parts@[n - 1]@);
    parts[n - 1].clone()
}

fn pattern_matches(repo_path: &Vec<char>, pattern: &Vec<char>) -> (r: bool)
    ensures
        r == pattern_matches_spec(repo_path@, pattern@),
{
    let pat = trim_exec(pattern);
    if pat.len() == 0 {
        return false;
    }
    let glob_dir = chars_of("/**");
    if let Some(prefix) = strip_suffix_exec(&pat, &glob_dir) {
        return match normalize_chars(&prefix) {
            Some(prefix) => contains_component_sequence_exec(repo_path, &prefix),
            None => true,
        };
    }
    let glob_ext = chars_of("*.");
    if let Some(suffix) = strip_prefix_exec(&pat, &glob_ext) {
        let mut dotted: Vec<char> = Vec::new();
        dotted.push('.');
        let mut k: usize = 0;
        while k < suffix.len()
            invariant
                k <= suffix.len(),
                dotted@ == seq!['.'] + suffix@.take(k as int),
            decreases suffix.len() - k,
        {
            dotted.push(suffix[k]);
            assert(suffix@.take(k + 1) =~= suffix@.take(k as int).push(suffix@[k as int]));
            k = k + 1;
        }
        assert(suffix@.take(suffix.len() as int) =~= suffix@);
        let name = file_name_exec(repo_path);
        return has_suffix(&name, &dotted);
    }
    let star = chars_of("*");
    if let Some(prefix) = strip_suffix_exec(&pat, &star) {
        if !contains_char(&prefix, '/') && !contains_char(&prefix, '*') {
            let name = file_name_exec(repo_path);
            return has_prefix(&name, &prefix);
        }
    }
    if contains_char(&pat, '*') {
        return true;
    }
    match normalize_chars(&pat) {
        Some(p) => seq_eq(repo_path, &p),
        None => true,
    }
}

/// The first pattern that excludes `repo_path`, if any.
pub fn matching_pattern<'patterns>(repo_path: &str, patterns: &'patterns [String]) -> (r: Option<
    &'patterns str,
>)
    ensures
        match r {
            Some(p) => exists|i: int|
                0 <= i < patterns@.len() && p@ == patterns@[i]@ && pattern_matches_spec(
                    repo_path@,
                    patterns@[i]@,
                ) && forall|j: int| 0 <= j < i ==> !pattern_matches_spec(repo_path@, patterns@[j]@),
            None => forall|j: int|
                0 <= j < patterns@.len() ==> !pattern_matches_spec(repo_path@, patterns@[j]@),
        },
{
    let path = chars_of(repo_path);
    let mut i: usize = 0;
    while i < patterns.len()
        invariant
            i <= patterns@.len(),
            path@ == repo_path@,
            forall|j: int| 0 <= j < i ==> !pattern_matches_spec(repo_path@, patterns@[j]@),
        decreases patterns.len() - i,
    {
        let pattern = chars_of(patterns[i].as_str());
        if pattern_matches(&path, &pattern) {
            return Some(patterns[i].as_str());
        }
        i = i + 1;
    }
    None
}

proof fn lemma_last_piece(s: Seq<char>, sep: char, k: int)
    requires
        0 <= k <= s.len(),
        k == 0 || s[k - 1] == sep,
        forall|j: int| k <= j < s.len() ==> s[j] != sep,
    ensures
        split_state(s, sep).1 == s.skip(k),
    decreases s.len(),
{
    if s.len() == 0 {
        assert(s.skip(k) =~= Seq::<char>::empty());
    } else if k == s.len() {
        assert(s.last() == sep);
        assert(s.skip(k) =~= Seq::<char>::empty());
    } else {
        let t = s.drop_last();
        assert(s.last() != sep);
        if k > 0 {
            assert(t[k - 1] == s[k - 1]);
        }
        assert forall|j: int| k <= j < t.len() implies t[j] != sep by {
            assert(t[j] == s[j]);
        }
        lemma_last_piece(t, sep, k);
        assert(t.skip(k).push(s.last()) =~= s.skip(k));
    }
}

proof fn lemma_prefix_pattern_shape(prefix: Seq<char>)
    requires
        !prefix.contains('/'),
        !prefix.contains('*'),
        prefix.len() == 0 || !is_ws(prefix[0]),
    ensures
        trim(prefix + "*"@) == prefix + "*"@,
        strip_suffix(prefix + "*"@, "/**"@) is None,
        strip_prefix(prefix + "*"@, "*."@) is None,
        strip_suffix(prefix + "*"@, "*"@) == Some(prefix),
{
    reveal_strlit("*");
    reveal_strlit("/**");
    reveal_strlit("*.");
    let pat = prefix + "*"@;
    assert(pat.len() == prefix.len() + 1);
    assert(pat[prefix.len() as int] == '*');
    assert(trim_start(pat) == pat) by {
        if prefix.len() > 0 {
            assert(pat[0] == prefix[0]);
        }
    }
    assert(trim_end(pat) == pat) by {
        assert(pat.last() == '*');
    }
    if ends_with(pat, "/**"@) {
        assert(pat.subrange(pat.len() - 3, pat.len() as int)[0] == pat[pat.len() - 3]);
        assert(pat[pat.len() - 3] == prefix[pat.len() - 3]);
        assert(prefix.contains('/'));
    }
    if starts_with(pat, "*."@) {
        assert(pat.subrange(0, 2)[0] == pat[0]);
        assert(prefix.len() > 0);
        assert(pat[0] == prefix[0]);
        assert(prefix.contains('*'));
    }
    assert(ends_with(pat, "*"@)) by {
        assert(pat.subrange(pat.len() - 1, pat.len() as int) =~= "*"@);
    }
    assert(pat.subrange(0, pat.len() - 1) =~= prefix);
}

/// A pattern `prefix*`, where the prefix holds no `/` and no `*`, matches a path exactly
/// when the path's file name, the part after its last `/`, starts with the prefix,
/// wherever in the tree the file lies.
pub proof fn lemma_prefix_pattern_matches_file_name(path: Seq<char>, prefix: Seq<char>, k: int)
    requires
        !prefix.contains('/'),
        !prefix.contains('*'),
        prefix.len() == 0 || !is_ws(prefix[0]),
        0 <= k <= path.len(),
        k == 0 || path[k - 1] == '/',
        forall|j: int| k <= j < path.len() ==> path[j] != '/',
    ensures
        pattern_matches_spec(path, prefix + "*"@) <==> starts_with(path.skip(k), prefix),
{
    lemma_prefix_pattern_shape(prefix);
    lemma_last_piece(path, '/', k);
    reveal_strlit("*");
    let pat = prefix + "*"@;
    assert(pat.len() > 0);
    assert(pat.contains('*')) by {
        assert(pat[prefix.len() as int] == '*');
    }
}

proof fn lemma_suffix_pattern_shape(suffix: Seq<char>)
    requires
        !suffix.contains('/'),
        suffix.len() == 0 || !is_ws(suffix.last()),
    ensures
        trim("*."@ + suffix) == "*."@ + suffix,
        strip_suffix("*."@ + suffix, "/**"@) is None,
        strip_prefix("*."@ + suffix, "*."@) == Some(suffix),
{
    reveal_strlit("/**");
    reveal_strlit("*.");
    let pat = "*."@ + suffix;
    assert(pat.len() == suffix.len() + 2);
    assert(pat[0] == '*');
    assert(trim_start(pat) == pat);
    assert(trim_end(pat) == pat) by {
        if suffix.len() > 0 {
            assert(pat.last() == suffix.last());
        } else {
            assert(pat.last() == '.');
        }
    }
    if ends_with(pat, "/**"@) {
        assert(pat.subrange(pat.len() - 3, pat.len() as int)[0] == pat[pat.len() - 3]);
        if pat.len() - 3 >= 2 {
            assert(pat[pat.len() - 3] == suffix[pat.len() - 5]);
            assert(suffix.contains('/'));
        } else {
            assert(pat.subrange(pat.len() - 3, pat.len() as int)[1] == pat[pat.len() - 2]);
        }
    }
    assert(starts_with(pat, "*."@)) by {
        assert(pat.subrange(0, 2) =~= "*."@);
    }
    assert(pat.subrange(2, pat.len() as int) =~= suffix);
}

/// A pattern `*.ext`, where the extension holds no `/`, matches a path exactly when the
/// path's file name, the part after its last `/`, ends with `.ext`.
pub proof fn lemma_extension_pattern_matches_file_name(path: Seq<char>, suffix: Seq<char>, k: int)
    requires
        !suffix.contains('/'),
        suffix.len() == 0 || !is_ws(suffix.last()),
        0 <= k <= path.len(),
        k == 0 || path[k - 1] == '/',
        forall|j: int| k <= j < path.len() ==> path[j] != '/',
    ensures
        pattern_matches_spec(path, "*."@ + suffix) <==> ends_with(path.skip(k), seq!['.'] + suffix),
{
    lemma_suffix_pattern_shape(suffix);
    lemma_last_piece(path, '/', k);
    reveal_strlit("*.");
    assert(("*."@ + suffix).len() > 0);
}

} // verus!

verus! {

/// Appending separator-free text only extends the piece in progress.
proof fn lemma_split_state_append(s: Seq<char>, t: Seq<char>, sep: char)
    requires
        !t.contains(sep),
    ensures
        split_state(s + t, sep) == (split_state(s, sep).0, split_state(s, sep).1 + t),
    decreases t.len(),
{
    if t.len() == 0 {
        assert(s + t =~= s);
        assert(split_state(s, sep).1 + t =~= split_state(s, sep).1);
    } else {
        let t0 = t.drop_last();
        assert(!t0.contains(sep)) by {
            if t0.contains(sep) {
                let k = choose|k: int| 0 <= k < t0.len() && t0[k] == sep;
                assert(t[k] == sep);
            }
        }
        lemma_split_state_append(s, t0, sep);
        assert((s + t).drop_last() =~= s + t0);
        assert((s + t).last() == t.last());
        assert(t.last() != sep) by {
            assert(t[t.len() - 1] == t.last());
        }
        assert(split_state(s, sep).1 + t0.push(t.last()) =~= (split_state(s, sep).1 + t0).push(
            t.last(),
        ));
        assert(t0.push(t.last()) =~= t);
    }
}

proof fn lemma_split_join(parts: Seq<Seq<char>>)
    requires
        parts.len() >= 1,
        forall|i: int| 0 <= i < parts.len() ==> !(#[trigger] parts[i]).contains('/'),
    ensures
        split_char(join_slash(parts), '/') == parts,
    decreases parts.len(),
{
    if parts.len() == 1 {
        lemma_split_state_append(seq![], parts[0], '/');
        assert(seq![] + parts[0] =~= parts[0]);
        assert(seq![] + parts[0] =~= parts[0]);
        assert(split_state(Seq::<char>::empty(), '/').1 + parts[0] =~= parts[0]);
        assert(seq![parts[0]] =~= parts);
        assert(Seq::<Seq<char>>::empty().push(parts[0]) =~= parts);
    } else {
        let init = parts.drop_last();
        assert forall|i: int| 0 <= i < init.len() implies !(#[trigger] init[i]).contains('/') by {
            assert(init[i] == parts[i]);
        }
        lemma_split_join(init);
        let j = join_slash(init);
        let x = parts.last();
        assert(!x.contains('/')) by {
            assert(parts[parts.len() - 1] == x);
        }
        let js = j.push('/');
        assert(js.drop_last() =~= j);
        assert(split_state(js, '/') == (split_state(j, '/').0.push(split_state(j, '/').1), Seq::<char>::empty()));
        lemma_split_state_append(js, x, '/');
        assert(j + seq!['/'] + x =~= js + x);
        assert(Seq::<char>::empty() + x =~= x);
        assert(split_char(j, '/') == split_state(j, '/').0.push(split_state(j, '/').1));
        assert(split_state(j, '/').0.push(split_state(j, '/').1).push(x) =~= parts);
    }
}

proof fn lemma_kept_identity(parts: Seq<Seq<char>>)
    requires
        forall|i: int| 0 <= i < parts.len() ==> !is_skipped_component(#[trigger] parts[i]),
    ensures
        kept_components(parts) == parts,
    decreases parts.len(),
{
    if parts.len() > 0 {
        let init = parts.drop_last();
        assert forall|i: int| 0 <= i < init.len() implies !is_skipped_component(
            #[trigger] init[i],
        ) by {
            assert(init[i] == parts[i]);
        }
        lemma_kept_identity(init);
        assert(!is_skipped_component(parts[parts.len() - 1]));
        assert(init.push(parts.last()) =~= parts);
    }
}

/// Every kept piece is one of the input pieces.
proof fn lemma_kept_members(parts: Seq<Seq<char>>)
    ensures
        forall|i: int|
            0 <= i < kept_components(parts).len() ==> !is_skipped_component(
                #[trigger] kept_components(parts)[i],
            ) && exists|j: int| 0 <= j < parts.len() && parts[j] == kept_components(parts)[i],
    decreases parts.len(),
{
    if parts.len() > 0 {
        let init = parts.drop_last();
        lemma_kept_members(init);
        let k = kept_components(parts);
        let ki = kept_components(init);
        assert forall|i: int| 0 <= i < k.len() implies !is_skipped_component(#[trigger] k[i])
            && exists|j: int| 0 <= j < parts.len() && parts[j] == k[i] by {
            if i < ki.len() {
                assert(k[i] == ki[i]);
                let j = choose|j: int| 0 <= j < init.len() && init[j] == ki[i];
                assert(parts[j] == init[j]);
            } else {
                assert(k[i] == parts.last());
                assert(parts[parts.len() - 1] == parts.last());
            }
        }
    }
}

/// Pieces produced by splitting never hold the separator, and hold only characters of the input.
proof fn lemma_split_pieces(s: Seq<char>, sep: char)
    ensures
        forall|i: int|
            0 <= i < split_char(s, sep).len() ==> !(#[trigger] split_char(s, sep)[i]).contains(sep)
                && forall|c: char| split_char(s, sep)[i].contains(c) ==> s.contains(c),
    decreases s.len(),
{
    lemma_split_state_pieces(s, sep);
}

proof fn lemma_split_state_pieces(s: Seq<char>, sep: char)
    ensures
        forall|i: int|
            0 <= i < split_state(s, sep).0.len() ==> !(#[trigger] split_state(s, sep).0[i]).contains(
                sep,
            ) && forall|c: char| split_state(s, sep).0[i].contains(c) ==> s.contains(c),
        !split_state(s, sep).1.contains(sep),
        forall|c: char| split_state(s, sep).1.contains(c) ==> s.contains(c),
        forall|i: int|
            0 <= i < split_char(s, sep).len() ==> !(#[trigger] split_char(s, sep)[i]).contains(sep)
                && forall|c: char| split_char(s, sep)[i].contains(c) ==> s.contains(c),
    decreases s.len(),
{
    if s.len() > 0 {
        let init = s.drop_last();
        lemma_split_state_pieces(init, sep);
        let (d0, c0) = split_state(init, sep);
        assert forall|c: char| init.contains(c) implies s.contains(c) by {
            let k = choose|k: int| 0 <= k < init.len() && init[k] == c;
            assert(s[k] == c);
        }
        assert(s[s.len() - 1] == s.last());
        if s.last() != sep {
            let c1 = c0.push(s.last());
            assert forall|c: char| c1.contains(c) implies s.contains(c) by {
                let k = choose|k: int| 0 <= k < c1.len() && c1[k] == c;
                if k < c0.len() {
                    assert(c0[k] == c);
                }
            }
            assert(!c1.contains(sep)) by {
                if c1.contains(sep) {
                    let k = choose|k: int| 0 <= k < c1.len() && c1[k] == sep;
                    if k < c0.len() {
                        assert(c0[k] == sep);
                    }
                }
            }
        } else {
            let d1 = d0.push(c0);
            assert forall|i: int| 0 <= i < d1.len() implies !(#[trigger] d1[i]).contains(sep)
                && forall|c: char| d1[i].contains(c) ==> s.contains(c) by {
                if i < d0.len() {
                    assert(d1[i] == d0[i]);
                }
            }
        }
    }
    let (d, c) = split_state(s, sep);
    let all = d.push(c);
    assert forall|i: int| 0 <= i < all.len() implies !(#[trigger] all[i]).contains(sep) && forall|
        x: char,
    | all[i].contains(x) ==> s.contains(x) by {
        if i < d.len() {
            assert(all[i] == d[i]);
        }
    }
}

/// Normalizing a normalized path gives it back, unless it is made of whitespace alone.
///
/// A repository path that `normalize_repo_path` accepted, and whose trimmed form is not
/// empty, is a fixed point of normalization.
pub proof fn lemma_normalize_idempotent(path: Seq<char>, normalized: Seq<char>)
    requires
        normalize_repo_path_spec(path) == Some(normalized),
        trim(normalized).len() > 0,
    ensures
        normalize_repo_path_spec(normalized) == Some(normalized),
{
    let parts = kept_components(split_char(path, '/'));
    lemma_split_pieces(path, '/');
    lemma_kept_members(split_char(path, '/'));
    assert forall|i: int| 0 <= i < parts.len() implies !(#[trigger] parts[i]).contains('/') && !parts[i].contains('\\') && !is_skipped_component(parts[i]) by {
        let j = choose|j: int| 0 <= j < split_char(path, '/').len() && split_char(path, '/')[j] == parts[i];
        assert(!split_char(path, '/')[j].contains('/'));
        if parts[i].contains('\\') {
            assert(split_char(path, '/')[j].contains('\\'));
        }
    }
    lemma_split_join(parts);
    lemma_kept_identity(parts);
    lemma_join_chars(parts);
    assert(normalized == join_slash(parts));
    assert(!normalized.contains('\\'));
    lemma_join_first(parts);
}

/// Characters of a joined path are separators or characters of the pieces.
proof fn lemma_join_chars(parts: Seq<Seq<char>>)
    requires
        forall|i: int| 0 <= i < parts.len() ==> !(#[trigger] parts[i]).contains('\\'),
    ensures
        !join_slash(parts).contains('\\'),
    decreases parts.len(),
{
    if parts.len() > 1 {
        let init = parts.drop_last();
        assert forall|i: int| 0 <= i < init.len() implies !(#[trigger] init[i]).contains('\\') by {
            assert(init[i] == parts[i]);
        }
        lemma_join_chars(init);
        let j = join_slash(init);
        let x = parts.last();
        assert(parts[parts.len() - 1] == x);
        let all = j + seq!['/'] + x;
        if all.contains('\\') {
            let k = choose|k: int| 0 <= k < all.len() && all[k] == '\\';
            if k < j.len() {
                assert(j[k] == '\\');
            } else if k > j.len() {
                assert(x[k - j.len() - 1] == '\\');
            }
        }
    } else if parts.len() == 1 {
        assert(parts[0] == join_slash(parts));
    }
}

/// A join of nonempty separator-free pieces does not begin with a separator.
proof fn lemma_join_first(parts: Seq<Seq<char>>)
    requires
        parts.len() >= 1,
        forall|i: int| 0 <= i < parts.len() ==> !(#[trigger] parts[i]).contains('/') && parts[i].len() > 0,
    ensures
        join_slash(parts).len() > 0,
        join_slash(parts)[0] == parts[0][0],
    decreases parts.len(),
{
    if parts.len() > 1 {
        let init = parts.drop_last();
        assert forall|i: int| 0 <= i < init.len() implies !(#[trigger] init[i]).contains('/') && init[i].len() > 0 by {
            assert(init[i] == parts[i]);
        }
        lemma_join_first(init);
        assert(init[0] == parts[0]);
    }
}

/// A normalized repository path is plain: not empty, not rooted, without a backslash,
/// and every `/`-separated segment is a non-empty name other than `.` and `..`.
pub proof fn lemma_normalized_path_is_plain(path: Seq<char>, normalized: Seq<char>)
    requires
        normalize_repo_path_spec(path) == Some(normalized),
    ensures
        normalized.len() > 0,
        normalized[0] != '/',
        !normalized.contains('\\'),
        forall|i: int|
            0 <= i < split_char(normalized, '/').len() ==> (#[trigger] split_char(normalized, '/')[i]).len() > 0
                && split_char(normalized, '/')[i] != seq!['.'] && split_char(normalized, '/')[i] != seq!['.', '.'],
{
    let parts = kept_components(split_char(path, '/'));
    lemma_split_pieces(path, '/');
    lemma_kept_members(split_char(path, '/'));
    assert forall|i: int| 0 <= i < parts.len() implies !(#[trigger] parts[i]).contains('/') && !parts[i].contains('\\') && !is_skipped_component(parts[i]) by {
        let j = choose|j: int| 0 <= j < split_char(path, '/').len() && split_char(path, '/')[j] == parts[i];
        assert(!split_char(path, '/')[j].contains('/'));
        if parts[i].contains('\\') {
            assert(split_char(path, '/')[j].contains('\\'));
        }
    }
    lemma_split_join(parts);
    lemma_join_chars(parts);
    lemma_join_first(parts);
    assert forall|i: int| 0 <= i < split_char(normalized, '/').len() implies (#[trigger] split_char(normalized, '/')[i]).len() > 0
        && split_char(normalized, '/')[i] != seq!['.'] && split_char(normalized, '/')[i] != seq!['.', '.'] by {
        assert(split_char(normalized, '/')[i] == parts[i]);
        assert(!is_skipped_component(parts[i]));
        if parts[i] == seq!['.', '.'] {
            assert(is_parent_component(parts[i]));
            assert(has_parent(parts));
        }
    }
    assert(parts[0][0] != '/') by {
        assert(!parts[0].contains('/'));
        assert(parts[0].len() > 0);
    }
}

/// A pattern `dir/**`, where `dir` is a single normalized path component, matches a path
/// exactly when one of the path's `/`-separated components is `dir`, at any depth.
pub proof fn lemma_directory_pattern_matches_component(path: Seq<char>, dir: Seq<char>)
    requires
        dir.len() > 0,
        !dir.contains('/'),
        !dir.contains('*'),
        !is_ws(dir[0]),
        normalize_repo_path_spec(dir) == Some(dir),
    ensures
        pattern_matches_spec(path, dir + "/**"@) <==> split_char(path, '/').contains(dir),
{
    reveal_strlit("/**");
    let pat = dir + "/**"@;
    assert(pat.len() == dir.len() + 3);
    assert(pat[0] == dir[0]);
    assert(trim_start(pat) == pat);
    assert(trim_end(pat) == pat) by {
        assert(pat.last() == '*');
    }
    assert(ends_with(pat, "/**"@)) by {
        assert(pat.subrange(pat.len() - 3, pat.len() as int) =~= "/**"@);
    }
    assert(pat.subrange(0, pat.len() - 3) =~= dir);
    lemma_split_state_append(Seq::<char>::empty(), dir, '/');
    assert(Seq::<char>::empty() + dir =~= dir);
    let q = split_char(dir, '/');
    assert(q =~= seq![dir]);
    let p = split_char(path, '/');
    if contains_component_sequence(path, dir) {
        let i = choose|i: int| window_at(p, q, i);
        assert(p.subrange(i, i + 1)[0] == p[i]);
        assert(p[i] == dir);
    }
    if p.contains(dir) {
        let i = choose|i: int| 0 <= i < p.len() && p[i] == dir;
        assert(p.subrange(i, i + 1) =~= q);
        assert(window_at(p, q, i));
    }
}

/// A pattern without wildcards that is already a normalized repository path matches that
/// path and no other.
pub proof fn lemma_exact_pattern_matches_only_itself(path: Seq<char>, pat: Seq<char>)
    requires
        !pat.contains('*'),
        pat.len() > 0,
        !is_ws(pat[0]),
        !is_ws(pat.last()),
        normalize_repo_path_spec(pat) == Some(pat),
    ensures
        pattern_matches_spec(path, pat) <==> path == pat,
{
    reveal_strlit("/**");
    reveal_strlit("*.");
    reveal_strlit("*");
    assert(trim_start(pat) == pat);
    assert(trim_end(pat) == pat);
    if ends_with(pat, "/**"@) {
        assert(pat.subrange(pat.len() - 3, pat.len() as int)[2] == pat[pat.len() - 1]);
        assert(pat.contains('*'));
    }
    if starts_with(pat, "*."@) {
        assert(pat.subrange(0, 2)[0] == pat[0]);
        assert(pat.contains('*'));
    }
    if ends_with(pat, "*"@) {
        assert(pat.subrange(pat.len() - 1, pat.len() as int)[0] == pat[pat.len() - 1]);
        assert(pat.contains('*'));
    }
}

} // verus!
