//! Parsing of unified diffs into the repository paths they touch.
use vstd::prelude::*;

use crate::policy::{normalize_repo_path_spec, seq_views, split_char, split_char_exec};
use crate::text::{
    chars_of, has_prefix, is_whitespace, is_ws, join_chars, seq_eq, split_once, split_once_exec,
    strip_prefix, strip_prefix_exec, string_of, trim, trim_exec,
};

verus! {

#[derive(Debug, Clone, PartialEq, Eq)]
pub struct ParsedPatch {
    pub changed_paths: Vec<String>,
    pub files: Vec<PatchFile>,
    pub contains_binary_patch: bool,
}

#[derive(Debug, Clone, PartialEq, Eq)]
pub struct PatchFile {
    pub paths: Vec<String>,
    pub old_path: Option<String>,
    pub new_path: Option<String>,
    pub contains_binary_patch: bool,
}

#[derive(Debug, Clone, PartialEq, Eq)]
pub enum PatchParseError {
    EmptyPatch,
    MalformedGitHeader(String),
    MissingPath(String),
    UnsafePath(String),
}

impl PatchParseError {
    /// The message, as the error displays.
    pub fn to_string(&self) -> (r: String)
        ensures
            r@ == match self {
                PatchParseError::EmptyPatch => "patch is empty or contains no file diffs"@,
                PatchParseError::MalformedGitHeader(h) => "malformed git diff header: "@ + h@,
                PatchParseError::MissingPath(m) => "patch path missing: "@ + m@,
                PatchParseError::UnsafePath(p) => "unsafe patch path: "@ + p@,
            },
    {
        match self {
            PatchParseError::EmptyPatch => string_of(&chars_of("patch is empty or contains no file diffs")),
            PatchParseError::MalformedGitHeader(h) => string_of(
                &join_chars(&chars_of("malformed git diff header: "), &chars_of(h.as_str())),
            ),
            PatchParseError::MissingPath(m) => string_of(
                &join_chars(&chars_of("patch path missing: "), &chars_of(m.as_str())),
            ),
            PatchParseError::UnsafePath(p) => string_of(&join_chars(&chars_of("unsafe patch path: "), &chars_of(p.as_str()))),
        }
    }
}

/// One file section of a diff, as sequences of characters.
pub struct PatchFileView {
    pub paths: Seq<Seq<char>>,
    pub old_path: Option<Seq<char>>,
    pub new_path: Option<Seq<char>>,
    pub contains_binary_patch: bool,
}

pub struct ParsedPatchView {
    pub changed_paths: Seq<Seq<char>>,
    pub files: Seq<PatchFileView>,
    pub contains_binary_patch: bool,
}

pub enum PatchErrorView {
    EmptyPatch,
    MalformedGitHeader(Seq<char>),
    MissingPath(Seq<char>),
    UnsafePath(Seq<char>),
}

pub open spec fn opt_view(o: Option<String>) -> Option<Seq<char>> {
    match o {
        Some(s) => Some(s@),
        None => None,
    }
}

impl View for PatchFile {
    type V = PatchFileView;

    open spec fn view(&self) -> PatchFileView {
        PatchFileView {
            paths: self.paths@.map_values(|s: String| s@),
            old_path: opt_view(self.old_path),
            new_path: opt_view(self.new_path),
            contains_binary_patch: self.contains_binary_patch,
        }
    }
}

impl View for ParsedPatch {
    type V = ParsedPatchView;

    open spec fn view(&self) -> ParsedPatchView {
        ParsedPatchView {
            changed_paths: self.changed_paths@.map_values(|s: String| s@),
            files: self.files@.map_values(|f: PatchFile| f@),
            contains_binary_patch: self.contains_binary_patch,
        }
    }
}

impl View for PatchParseError {
    type V = PatchErrorView;

    open spec fn view(&self) -> PatchErrorView {
        match self {
            PatchParseError::EmptyPatch => PatchErrorView::EmptyPatch,
            PatchParseError::MalformedGitHeader(s) => PatchErrorView::MalformedGitHeader(s@),
            PatchParseError::MissingPath(s) => PatchErrorView::MissingPath(s@),
            PatchParseError::UnsafePath(s) => PatchErrorView::UnsafePath(s@),
        }
    }
}

// ---------------------------------------------------------------------------------------------
// Lines

pub open spec fn strip_cr(line: Seq<char>) -> Seq<char> {
    if line.len() > 0 && line.last() == '\r' {
        line.drop_last()
    } else {
        line
    }
}

/// `str::lines`: split at `\n`, drop one `\r` before each `\n`, and no final empty line.
pub open spec fn lines(s: Seq<char>) -> Seq<Seq<char>> {
    let parts = split_char(s, '\n');
    let ended = parts.drop_last().map_values(|x: Seq<char>| strip_cr(x));
    if parts.last().len() > 0 {
        ended.push(parts.last())
    } else {
        ended
    }
}

fn strip_cr_exec(line: &Vec<char>) -> (r: Vec<char>)
    ensures
        r@ == strip_cr(line@),
{
    if line.len() > 0 && line[line.len() - 1] == '\r' {
        crate::text::slice_of(line, 0, line.len() - 1)
    } else {
        line.clone()
    }
}

fn lines_exec(s: &Vec<char>) -> (r: Vec<Vec<char>>)
    ensures
        seq_views(r@) == lines(s@),
{
    let parts = split_char_exec(s, '\n');
    let ghost pv = seq_views(parts@);
    let n = parts.len();
    assert(pv.len() == n);
    assert(n >= 1);
    let mut out: Vec<Vec<char>> = Vec::new();
    let mut i: usize = 0;
    while i + 1 < n
        invariant
            n == parts.len(),
            n >= 1,
            pv == seq_views(parts@),
            i + 1 <= n,
            seq_views(out@) == pv.drop_last().take(i as int).map_values(|x: Seq<char>| strip_cr(x)),
        decreases n - i,
    {
        let line = strip_cr_exec(&parts[i]);
        let ghost before = seq_views(out@);
        let ghost lv = line@;
        out.push(line);
        assert(seq_views(out@) =~= before.push(lv));
        assert(pv[i as int] == parts@[i as int]@);
        assert(pv.drop_last()[i as int] == pv[i as int]);
        assert(pv.drop_last().take(i + 1) =~= pv.drop_last().take(i as int).push(parts@[i as int]@));
        assert(seq_views(out@) =~= pv.drop_last().take(i + 1).map_values(|x: Seq<char>| strip_cr(x)));
        i = i + 1;
    }
    assert(pv.drop_last().take(i as int) =~= pv.drop_last());
    let last = &parts[n - 1];
    assert(pv.last() == last@);
    if last.len() > 0 {
        let l = last.clone();
        let ghost before = seq_views(out@);
        out.push(l);
        assert(seq_views(out@) =~= before.push(last@));
    }
    out
}

// ---------------------------------------------------------------------------------------------
// Tokens

/// Tokenizer state: finished tokens, the token in progress, inside quotes, escape pending.
pub open spec fn token_state(s: Seq<char>) -> (Seq<Seq<char>>, Seq<char>, bool, bool)
    decreases s.len(),
{
    if s.len() == 0 {
        (seq![], seq![], false, false)
    } else {
        let (tokens, cur, quoted, escape) = token_state(s.drop_last());
        let c = s.last();
        if escape {
            (tokens, cur.push(c), quoted, false)
        } else if c == '"' {
            (tokens, cur, !quoted, false)
        } else if c == '\\' && quoted {
            (tokens, cur, quoted, true)
        } else if is_ws(c) && !quoted {
            if cur.len() > 0 {
                (tokens.push(cur), seq![], quoted, false)
            } else {
                (tokens, cur, quoted, false)
            }
        } else {
            (tokens, cur.push(c), quoted, false)
        }
    }
}

/// Whitespace-separated tokens with `"` quoting and `\` escapes inside quotes.
pub open spec fn parse_tokens_spec(s: Seq<char>) -> Result<Seq<Seq<char>>, PatchErrorView> {
    let (tokens, cur, quoted, escape) = token_state(s);
    if escape || quoted {
        Err(PatchErrorView::MalformedGitHeader(s))
    } else if cur.len() > 0 {
        Ok(tokens.push(cur))
    } else {
        Ok(tokens)
    }
}

fn parse_tokens(input: &Vec<char>) -> (r: Result<Vec<Vec<char>>, PatchParseError>)
    ensures
        match r {
            Ok(t) => parse_tokens_spec(input@) == Ok::<Seq<Seq<char>>, PatchErrorView>(seq_views(t@)),
            Err(e) => parse_tokens_spec(input@) == Err::<Seq<Seq<char>>, PatchErrorView>(e@),
        },
{
    let mut tokens: Vec<Vec<char>> = Vec::new();
    let mut current: Vec<char> = Vec::new();
    let mut in_quotes = false;
    let mut escape = false;
    let mut i: usize = 0;
    while i < input.len()
        invariant
            i <= input.len(),
            (seq_views(tokens@), current@, in_quotes, escape) == token_state(input@.take(i as int)),
        decreases input.len() - i,
    {
        assert(input@.take(i + 1).drop_last() =~= input@.take(i as int));
        let c = input[i];
        if escape {
            current.push(c);
            escape = false;
        } else if c == '"' {
            in_quotes = !in_quotes;
        } else if c == '\\' && in_quotes {
            escape = true;
        } else if is_whitespace(c) && !in_quotes {
            if current.len() > 0 {
                let finished = current;
                current = Vec::new();
                let ghost before = seq_views(tokens@);
                tokens.push(finished);
                assert(seq_views(tokens@) =~= before.push(finished@));
            }
        } else {
            current.push(c);
        }
        i = i + 1;
    }
    assert(input@.take(input.len() as int) =~= input@);
    if escape || in_quotes {
        return Err(PatchParseError::MalformedGitHeader(string_of(input)));
    }
    if current.len() > 0 {
        let ghost before = seq_views(tokens@);
        let last = current;
        tokens.push(last);
        assert(seq_views(tokens@) =~= before.push(last@));
    }
    Ok(tokens)
}

// ---------------------------------------------------------------------------------------------
// Paths

pub open spec fn normalize_patch_path_spec(raw: Seq<char>, allow_dev_null: bool) -> Result<
    Option<Seq<char>>,
    PatchErrorView,
> {
    let path = trim(raw);
    if path == "/dev/null"@ {
        if allow_dev_null {
            Ok(None)
        } else {
            Err(PatchErrorView::UnsafePath(path))
        }
    } else {
        let stripped = match strip_prefix(path, "a/"@) {
            Some(rest) => rest,
            None => match strip_prefix(path, "b/"@) {
                Some(rest) => rest,
                None => path,
            },
        };
        match normalize_repo_path_spec(stripped) {
            Some(p) => Ok(Some(p)),
            None => Err(PatchErrorView::UnsafePath(stripped)),
        }
    }
}

fn normalize_patch_path(raw: &Vec<char>, allow_dev_null: bool) -> (r: Result<
    Option<Vec<char>>,
    PatchParseError,
>)
    ensures
        match r {
            Ok(Some(p)) => normalize_patch_path_spec(raw@, allow_dev_null) == Ok::<
                Option<Seq<char>>,
                PatchErrorView,
            >(Some(p@)),
            Ok(None) => normalize_patch_path_spec(raw@, allow_dev_null) == Ok::<
                Option<Seq<char>>,
                PatchErrorView,
            >(None),
            Err(e) => normalize_patch_path_spec(raw@, allow_dev_null) == Err::<
                Option<Seq<char>>,
                PatchErrorView,
            >(e@),
        },
{
    let path = trim_exec(raw);
    let dev_null = chars_of("/dev/null");
    if seq_eq(&path, &dev_null) {
        return if allow_dev_null {
            Ok(None)
        } else {
            Err(PatchParseError::UnsafePath(string_of(&path)))
        };
    }
    let a = chars_of("a/");
    let b = chars_of("b/");
    let stripped = match strip_prefix_exec(&path, &a) {
        Some(rest) => rest,
        None => match strip_prefix_exec(&path, &b) {
            Some(rest) => rest,
            None => path,
        },
    };
    match crate::policy::normalize_repo_path(string_of(&stripped).as_str()) {
        Some(p) => Ok(Some(chars_of(p.as_str()))),
        None => Err(PatchParseError::UnsafePath(string_of(&stripped))),
    }
}

pub open spec fn push_unique_spec(v: Seq<Seq<char>>, x: Seq<char>) -> Seq<Seq<char>> {
    if v.contains(x) {
        v
    } else {
        v.push(x)
    }
}

/// Appends each item that is not yet present, in order.
pub open spec fn push_all_unique(v: Seq<Seq<char>>, xs: Seq<Seq<char>>) -> Seq<Seq<char>>
    decreases xs.len(),
{
    if xs.len() == 0 {
        v
    } else {
        push_unique_spec(push_all_unique(v, xs.drop_last()), xs.last())
    }
}

fn push_unique(values: &mut Vec<Vec<char>>, value: Vec<char>)
    ensures
        seq_views(final(values)@) == push_unique_spec(seq_views(old(values)@), value@),
{
    let ghost before = seq_views(values@);
    let mut i: usize = 0;
    while i < values.len()
        invariant
            i <= values.len(),
            before == seq_views(values@),
            forall|j: int| 0 <= j < i ==> values@[j]@ != value@,
        decreases values.len() - i,
    {
        if seq_eq(&values[i], &value) {
            assert(before[i as int] == value@);
            return;
        }
        i = i + 1;
    }
    assert(!before.contains(value@)) by {
        if before.contains(value@) {
            let k = choose|k: int| 0 <= k < before.len() && before[k] == value@;
            assert(values@[k]@ == before[k]);
        }
    }
    let v = value;
    values.push(v);
    assert(seq_views(values@) =~= before.push(v@));
}

pub open spec fn git_header_paths_spec(rest: Seq<char>) -> Result<Seq<Seq<char>>, PatchErrorView> {
    match parse_tokens_spec(rest) {
        Err(e) => Err(e),
        Ok(tokens) => if tokens.len() != 2 {
            Err(PatchErrorView::MalformedGitHeader(rest))
        } else {
            match normalize_patch_path_spec(tokens[0], false) {
                Err(e) => Err(e),
                Ok(None) => Err(PatchErrorView::UnsafePath(tokens[0])),
                Ok(Some(p0)) => match normalize_patch_path_spec(tokens[1], false) {
                    Err(e) => Err(e),
                    Ok(None) => Err(PatchErrorView::UnsafePath(tokens[1])),
                    Ok(Some(p1)) => Ok(push_unique_spec(seq![p0], p1)),
                },
            }
        },
    }
}

fn git_header_path(token: &Vec<char>) -> (r: Result<Vec<char>, PatchParseError>)
    ensures
        match r {
            Ok(p) => normalize_patch_path_spec(token@, false) == Ok::<
                Option<Seq<char>>,
                PatchErrorView,
            >(Some(p@)),
            Err(e) => match normalize_patch_path_spec(token@, false) {
                Err(e2) => e@ == e2,
                Ok(None) => e@ == PatchErrorView::UnsafePath(token@),
                Ok(Some(_)) => false,
            },
        },
{
    match normalize_patch_path(token, false) {
        Ok(Some(p)) => Ok(p),
        Ok(None) => Err(PatchParseError::UnsafePath(string_of(token))),
        Err(e) => Err(e),
    }
}

fn parse_git_header_paths(rest: &Vec<char>) -> (r: Result<Vec<Vec<char>>, PatchParseError>)
    ensures
        match r {
            Ok(p) => git_header_paths_spec(rest@) == Ok::<Seq<Seq<char>>, PatchErrorView>(
                seq_views(p@),
            ),
            Err(e) => git_header_paths_spec(rest@) == Err::<Seq<Seq<char>>, PatchErrorView>(e@),
        },
{
    let tokens = parse_tokens(rest)?;
    if tokens.len() != 2 {
        return Err(PatchParseError::MalformedGitHeader(string_of(rest)));
    }
    assert(seq_views(tokens@)[0] == tokens@[0]@);
    assert(seq_views(tokens@)[1] == tokens@[1]@);
    let p0 = git_header_path(&tokens[0])?;
    let p1 = git_header_path(&tokens[1])?;
    let mut paths: Vec<Vec<char>> = Vec::new();
    paths.push(p0);
    assert(seq_views(paths@) =~= seq![p0@]);
    push_unique(&mut paths, p1);
    Ok(paths)
}

pub open spec fn file_header_token_spec(rest: Seq<char>) -> Result<Seq<char>, PatchErrorView> {
    let r = trim(rest);
    if r.len() == 0 {
        Err(PatchErrorView::MissingPath("file header did not include a path"@))
    } else if r[0] == '"' {
        match parse_tokens_spec(r) {
            Err(e) => Err(e),
            Ok(tokens) => if tokens.len() > 0 {
                Ok(tokens[0])
            } else {
                Err(PatchErrorView::MissingPath("quoted file header path"@))
            },
        }
    } else {
        match split_once(r, '\t') {
            Some((path, _)) => Ok(path),
            None => Ok(r),
        }
    }
}

fn parse_file_header_token(rest: &Vec<char>) -> (r: Result<Vec<char>, PatchParseError>)
    ensures
        match r {
            Ok(t) => file_header_token_spec(rest@) == Ok::<Seq<char>, PatchErrorView>(t@),
            Err(e) => file_header_token_spec(rest@) == Err::<Seq<char>, PatchErrorView>(e@),
        },
{
    let r = trim_exec(rest);
    if r.len() == 0 {
        return Err(PatchParseError::MissingPath(String::from_str("file header did not include a path")));
    }
    if r[0] == '"' {
        let tokens = parse_tokens(&r)?;
        if tokens.len() > 0 {
            assert(seq_views(tokens@)[0] == tokens@[0]@);
            return Ok(tokens[0].clone());
        }
        return Err(PatchParseError::MissingPath(String::from_str("quoted file header path")));
    }
    match split_once_exec(&r, '\t') {
        Some((path, _)) => Ok(path),
        None => Ok(r),
    }
}

pub open spec fn file_header_path_spec(rest: Seq<char>) -> Result<Option<Seq<char>>, PatchErrorView> {
    match file_header_token_spec(rest) {
        Err(e) => Err(e),
        Ok(token) => normalize_patch_path_spec(token, true),
    }
}

fn parse_file_header_path(rest: &Vec<char>) -> (r: Result<Option<Vec<char>>, PatchParseError>)
    ensures
        match r {
            Ok(Some(p)) => file_header_path_spec(rest@) == Ok::<Option<Seq<char>>, PatchErrorView>(
                Some(p@),
            ),
            Ok(None) => file_header_path_spec(rest@) == Ok::<Option<Seq<char>>, PatchErrorView>(
                None,
            ),
            Err(e) => file_header_path_spec(rest@) == Err::<Option<Seq<char>>, PatchErrorView>(e@),
        },
{
    let token = parse_file_header_token(rest)?;
    normalize_patch_path(&token, true)
}

// ---------------------------------------------------------------------------------------------
// The diff as a whole

pub struct ParseStateView {
    pub files: Seq<PatchFileView>,
    pub current: Option<PatchFileView>,
    pub binary: bool,
}

pub open spec fn empty_file() -> PatchFileView {
    PatchFileView { paths: seq![], old_path: None, new_path: None, contains_binary_patch: false }
}

/// Closes the file section in progress; a section that named no path is an error.
pub open spec fn finish_file_spec(files: Seq<PatchFileView>, current: Option<PatchFileView>) -> Result<
    Seq<PatchFileView>,
    PatchErrorView,
> {
    match current {
        None => Ok(files),
        Some(f) => if f.paths.len() == 0 {
            Err(PatchErrorView::MissingPath("file diff did not name a repository path"@))
        } else {
            Ok(files.push(f))
        },
    }
}

pub open spec fn with_header_path(
    st: ParseStateView,
    parsed: Result<Option<Seq<char>>, PatchErrorView>,
    old: bool,
) -> Result<ParseStateView, PatchErrorView> {
    let f = match st.current {
        Some(f) => f,
        None => empty_file(),
    };
    match parsed {
        Err(e) => Err(e),
        Ok(None) => Ok(ParseStateView { current: Some(f), ..st }),
        Ok(Some(p)) => Ok(
            ParseStateView {
                current: Some(
                    if old {
                        PatchFileView { old_path: Some(p), paths: push_unique_spec(f.paths, p), ..f }
                    } else {
                        PatchFileView { new_path: Some(p), paths: push_unique_spec(f.paths, p), ..f }
                    },
                ),
                ..st
            },
        ),
    }
}

/// How one line of the diff changes the parser state.
pub open spec fn parse_step(st: ParseStateView, line: Seq<char>) -> Result<ParseStateView, PatchErrorView> {
    if strip_prefix(line, "diff --git "@) is Some {
        match finish_file_spec(st.files, st.current) {
            Err(e) => Err(e),
            Ok(files) => match git_header_paths_spec(strip_prefix(line, "diff --git "@)->0) {
                Err(e) => Err(e),
                Ok(paths) => Ok(
                    ParseStateView {
                        files,
                        current: Some(PatchFileView { paths, ..empty_file() }),
                        binary: st.binary,
                    },
                ),
            },
        }
    } else if strip_prefix(line, "--- "@) is Some {
        with_header_path(st, file_header_path_spec(strip_prefix(line, "--- "@)->0), true)
    } else if strip_prefix(line, "+++ "@) is Some {
        with_header_path(st, file_header_path_spec(strip_prefix(line, "+++ "@)->0), false)
    } else if line == "GIT binary patch"@ || strip_prefix(line, "Binary files "@) is Some {
        Ok(
            ParseStateView {
                binary: true,
                current: match st.current {
                    Some(f) => Some(PatchFileView { contains_binary_patch: true, ..f }),
                    None => None,
                },
                files: st.files,
            },
        )
    } else {
        Ok(st)
    }
}

pub open spec fn initial_state() -> ParseStateView {
    ParseStateView { files: seq![], current: None, binary: false }
}

/// The parser state after the given lines; the first error is kept.
pub open spec fn parse_lines(ls: Seq<Seq<char>>) -> Result<ParseStateView, PatchErrorView>
    decreases ls.len(),
{
    if ls.len() == 0 {
        Ok(initial_state())
    } else {
        match parse_lines(ls.drop_last()) {
            Err(e) => Err(e),
            Ok(st) => parse_step(st, ls.last()),
        }
    }
}

/// Every path named by the file sections, each once, in order of first mention.
pub open spec fn changed_paths_spec(files: Seq<PatchFileView>) -> Seq<Seq<char>>
    decreases files.len(),
{
    if files.len() == 0 {
        seq![]
    } else {
        push_all_unique(changed_paths_spec(files.drop_last()), files.last().paths)
    }
}

/// What `parse_unified_diff` returns for a diff with the given characters.
pub open spec fn parse_unified_diff_spec(patch: Seq<char>) -> Result<ParsedPatchView, PatchErrorView> {
    match parse_lines(lines(patch)) {
        Err(e) => Err(e),
        Ok(st) => match finish_file_spec(st.files, st.current) {
            Err(e) => Err(e),
            Ok(files) => if files.len() == 0 {
                Err(PatchErrorView::EmptyPatch)
            } else if changed_paths_spec(files).len() == 0 {
                Err(PatchErrorView::MissingPath("patch did not name a repository path"@))
            } else {
                Ok(
                    ParsedPatchView {
                        changed_paths: changed_paths_spec(files),
                        files,
                        contains_binary_patch: st.binary,
                    },
                )
            },
        },
    }
}

struct Builder {
    paths: Vec<Vec<char>>,
    old_path: Option<Vec<char>>,
    new_path: Option<Vec<char>>,
    contains_binary_patch: bool,
}

spec fn builder_view(b: Builder) -> PatchFileView {
    PatchFileView {
        paths: seq_views(b.paths@),
        old_path: match b.old_path {
            Some(v) => Some(v@),
            None => None,
        },
        new_path: match b.new_path {
            Some(v) => Some(v@),
            None => None,
        },
        contains_binary_patch: b.contains_binary_patch,
    }
}

spec fn current_view(c: Option<Builder>) -> Option<PatchFileView> {
    match c {
        Some(b) => Some(builder_view(b)),
        None => None,
    }
}

fn empty_builder() -> (b: Builder)
    ensures
        builder_view(b) == empty_file(),
{
    let b = Builder { paths: Vec::new(), old_path: None, new_path: None, contains_binary_patch: false };
    assert(seq_views(b.paths@) =~= Seq::<Seq<char>>::empty());
    b
}

fn strings_of(v: &Vec<Vec<char>>) -> (r: Vec<String>)
    ensures
        r@.map_values(|s: String| s@) == seq_views(v@),
{
    let mut r: Vec<String> = Vec::new();
    let mut i: usize = 0;
    while i < v.len()
        invariant
            i <= v.len(),
            r@.map_values(|s: String| s@) == seq_views(v@).take(i as int),
        decreases v.len() - i,
    {
        let ghost before = r@.map_values(|s: String| s@);
        let s = string_of(&v[i]);
        r.push(s);
        assert(r@.map_values(|s: String| s@) =~= before.push(v@[i as int]@));
        assert(seq_views(v@).take(i + 1) =~= seq_views(v@).take(i as int).push(v@[i as int]@));
        i = i + 1;
    }
    assert(seq_views(v@).take(v.len() as int) =~= seq_views(v@));
    r
}

fn opt_string(o: Option<Vec<char>>) -> (r: Option<String>)
    ensures
        opt_view(r) == match o {
            Some(v) => Some(v@),
            None => None::<Seq<char>>,
        },
{
    match o {
        Some(v) => Some(string_of(&v)),
        None => None,
    }
}

fn finish_file(files: &mut Vec<PatchFile>, current: Option<Builder>) -> (r: Result<(), PatchParseError>)
    ensures
        match r {
            Ok(()) => finish_file_spec(old(files)@.map_values(|f: PatchFile| f@), current_view(current))
                == Ok::<Seq<PatchFileView>, PatchErrorView>(final(files)@.map_values(|f: PatchFile| f@)),
            Err(e) => finish_file_spec(old(files)@.map_values(|f: PatchFile| f@), current_view(current))
                == Err::<Seq<PatchFileView>, PatchErrorView>(e@),
        },
{
    match current {
        None => Ok(()),
        Some(b) => {
            if b.paths.len() == 0 {
                return Err(PatchParseError::MissingPath(String::from_str("file diff did not name a repository path")));
            }
            let ghost before = files@.map_values(|f: PatchFile| f@);
            let ghost bv = builder_view(b);
            let file = PatchFile {
                paths: strings_of(&b.paths),
                old_path: opt_string(b.old_path),
                new_path: opt_string(b.new_path),
                contains_binary_patch: b.contains_binary_patch,
            };
            assert(file@ == bv);
            files.push(file);
            assert(files@.map_values(|f: PatchFile| f@) =~= before.push(bv));
            Ok(())
        },
    }
}

/// Parses a unified diff and collects the repository paths it names.
pub fn parse_unified_diff(patch: &str) -> (r: Result<ParsedPatch, PatchParseError>)
    ensures
        match r {
            Ok(p) => parse_unified_diff_spec(patch@) == Ok::<ParsedPatchView, PatchErrorView>(p@),
            Err(e) => parse_unified_diff_spec(patch@) == Err::<ParsedPatchView, PatchErrorView>(e@),
        },
{
    let text = chars_of(patch);
    let all = lines_exec(&text);
    let ghost ls = seq_views(all@);
    let diff_git = chars_of("diff --git ");
    let minus = chars_of("--- ");
    let plus = chars_of("+++ ");
    let git_binary = chars_of("GIT binary patch");
    let binary_files = chars_of("Binary files ");
    let mut files: Vec<PatchFile> = Vec::new();
    let mut current: Option<Builder> = None;
    let mut contains_binary_patch = false;
    let mut i: usize = 0;
    assert(ls.take(0) =~= Seq::<Seq<char>>::empty());
    assert(files@.map_values(|f: PatchFile| f@) =~= Seq::<PatchFileView>::empty());
    while i < all.len()
        invariant
            i <= all.len(),
            ls == seq_views(all@),
            ls == lines(patch@),
            diff_git@ == "diff --git "@,
            minus@ == "--- "@,
            plus@ == "+++ "@,
            git_binary@ == "GIT binary patch"@,
            binary_files@ == "Binary files "@,
            parse_lines(ls.take(i as int)) == Ok::<ParseStateView, PatchErrorView>(
                ParseStateView {
                    files: files@.map_values(|f: PatchFile| f@),
                    current: current_view(current),
                    binary: contains_binary_patch,
                },
            ),
        decreases all.len() - i,
    {
        let ghost prev = ParseStateView {
            files: files@.map_values(|f: PatchFile| f@),
            current: current_view(current),
            binary: contains_binary_patch,
        };
        assert(ls.take(i + 1).drop_last() =~= ls.take(i as int));
        assert(ls.take(i + 1).last() == all@[i as int]@);
        let line = &all[i];
        if let Some(rest) = strip_prefix_exec(line, &diff_git) {
            let taken = current;
            current = None;
            match finish_file(&mut files, taken) {
                Ok(()) => {},
                Err(e) => {
                    proof {
                        lemma_parse_error_sticks(ls, i as int + 1, e@);
                    }
                    return Err(e);
                },
            }
            match parse_git_header_paths(&rest) {
                Ok(paths) => {
                    let b = Builder { paths, old_path: None, new_path: None, contains_binary_patch: false };
                    current = Some(b);
                },
                Err(e) => {
                    proof {
                        lemma_parse_error_sticks(ls, i as int + 1, e@);
                    }
                    return Err(e);
                },
            }
        } else if let Some(rest) = strip_prefix_exec(line, &minus) {
            let mut b = match current {
                Some(b) => b,
                None => empty_builder(),
            };
            current = None;
            match parse_file_header_path(&rest) {
                Ok(Some(p)) => {
                    b.old_path = Some(p.clone());
                    push_unique(&mut b.paths, p);
                },
                Ok(None) => {},
                Err(e) => {
                    proof {
                        lemma_parse_error_sticks(ls, i as int + 1, e@);
                    }
                    return Err(e);
                },
            }
            current = Some(b);
        } else if let Some(rest) = strip_prefix_exec(line, &plus) {
            let mut b = match current {
                Some(b) => b,
                None => empty_builder(),
            };
            current = None;
            match parse_file_header_path(&rest) {
                Ok(Some(p)) => {
                    b.new_path = Some(p.clone());
                    push_unique(&mut b.paths, p);
                },
                Ok(None) => {},
                Err(e) => {
                    proof {
                        lemma_parse_error_sticks(ls, i as int + 1, e@);
                    }
                    return Err(e);
                },
            }
            current = Some(b);
        } else if seq_eq(line, &git_binary) || has_prefix(line, &binary_files) {
            contains_binary_patch = true;
            match current {
                Some(mut b) => {
                    b.contains_binary_patch = true;
                    current = Some(b);
                },
                None => {},
            }
        }
        i = i + 1;
    }
    assert(ls.take(all.len() as int) =~= ls);
    let ghost st = ParseStateView {
        files: files@.map_values(|f: PatchFile| f@),
        current: current_view(current),
        binary: contains_binary_patch,
    };
    finish_file(&mut files, current)?;
    if files.len() == 0 {
        return Err(PatchParseError::EmptyPatch);
    }
    let mut changed: Vec<Vec<char>> = Vec::new();
    let mut k: usize = 0;
    while k < files.len()
        invariant
            k <= files.len(),
            seq_views(changed@) == changed_paths_spec(files@.map_values(|f: PatchFile| f@).take(k as int)),
        decreases files.len() - k,
    {
        let ghost fv = files@.map_values(|f: PatchFile| f@);
        assert(fv.take(k + 1).drop_last() =~= fv.take(k as int));
        assert(fv.take(k + 1).last() == files@[k as int]@);
        let file = &files[k];
        let ghost start = seq_views(changed@);
        let mut j: usize = 0;
        assert(file@.paths.take(0) =~= Seq::<Seq<char>>::empty());
        while j < file.paths.len()
            invariant
                j <= file.paths.len(),
                seq_views(changed@) == push_all_unique(start, file@.paths.take(j as int)),
            decreases file.paths.len() - j,
        {
            assert(file@.paths.take(j + 1).drop_last() =~= file@.paths.take(j as int));
            assert(file@.paths.take(j + 1).last() == file.paths@[j as int]@);
            let p = chars_of(file.paths[j].as_str());
            push_unique(&mut changed, p);
            j = j + 1;
        }
        assert(file@.paths.take(file.paths.len() as int) =~= file@.paths);
        k = k + 1;
    }
    assert(files@.map_values(|f: PatchFile| f@).take(files.len() as int) =~= files@.map_values(|f: PatchFile| f@));
    if changed.len() == 0 {
        return Err(PatchParseError::MissingPath(String::from_str("patch did not name a repository path")));
    }
    Ok(ParsedPatch { changed_paths: strings_of(&changed), files, contains_binary_patch })
}

/// Once a prefix of the lines fails, every longer prefix fails with the same error.
proof fn lemma_parse_error_sticks(ls: Seq<Seq<char>>, n: int, e: PatchErrorView)
    requires
        0 <= n <= ls.len(),
        parse_lines(ls.take(n)) == Err::<ParseStateView, PatchErrorView>(e),
    ensures
        parse_lines(ls) == Err::<ParseStateView, PatchErrorView>(e),
    decreases ls.len() - n,
{
    if n < ls.len() {
        assert(ls.take(n + 1).drop_last() =~= ls.take(n));
        lemma_parse_error_sticks(ls, n + 1, e);
    } else {
        assert(ls.take(n) =~= ls);
    }
}

proof fn lemma_push_all_unique(v: Seq<Seq<char>>, xs: Seq<Seq<char>>)
    requires
        v.no_duplicates(),
    ensures
        push_all_unique(v, xs).no_duplicates(),
        forall|x: Seq<char>| #[trigger] v.contains(x) ==> push_all_unique(v, xs).contains(x),
        forall|j: int| 0 <= j < xs.len() ==> push_all_unique(v, xs).contains(#[trigger] xs[j]),
        forall|y: Seq<char>| #[trigger] push_all_unique(v, xs).contains(y) ==> v.contains(y) || xs.contains(y),
    decreases xs.len(),
{
    if xs.len() > 0 {
        let init = xs.drop_last();
        let x = xs.last();
        let prev = push_all_unique(v, init);
        lemma_push_all_unique(v, init);
        let r = push_unique_spec(prev, x);
        assert(r == push_all_unique(v, xs));
        if !prev.contains(x) {
            assert forall|i: int, j: int| 0 <= i < r.len() && 0 <= j < r.len() && i != j implies r[i] != r[j] by {
                if i < prev.len() && j < prev.len() {
                    assert(prev[i] != prev[j]);
                } else if i < prev.len() {
                    assert(r[j] == x);
                    assert(prev[i] != x);
                } else {
                    assert(r[i] == x);
                    assert(prev[j] != x);
                }
            }
        }
        assert forall|z: Seq<char>| #[trigger] v.contains(z) implies r.contains(z) by {
            assert(prev.contains(z));
            let k = choose|k: int| 0 <= k < prev.len() && prev[k] == z;
            assert(r[k] == z);
        }
        assert forall|j: int| 0 <= j < xs.len() implies r.contains(#[trigger] xs[j]) by {
            if j < xs.len() - 1 {
                assert(init[j] == xs[j]);
                assert(prev.contains(init[j]));
                let k = choose|k: int| 0 <= k < prev.len() && prev[k] == xs[j];
                assert(r[k] == xs[j]);
            } else if !prev.contains(x) {
                assert(r[prev.len() as int] == x);
            }
        }
        assert forall|y: Seq<char>| #[trigger] r.contains(y) implies v.contains(y) || xs.contains(y) by {
            let k = choose|k: int| 0 <= k < r.len() && r[k] == y;
            if k < prev.len() {
                assert(prev[k] == y);
                assert(prev.contains(y));
                if init.contains(y) {
                    let m = choose|m: int| 0 <= m < init.len() && init[m] == y;
                    assert(xs[m] == y);
                }
            } else {
                assert(xs[xs.len() - 1] == y);
            }
        }
    }
}

proof fn lemma_changed_paths(files: Seq<PatchFileView>)
    ensures
        changed_paths_spec(files).no_duplicates(),
        forall|i: int, j: int|
            0 <= i < files.len() && 0 <= j < files[i].paths.len() ==> changed_paths_spec(files).contains(
                #[trigger] files[i].paths[j],
            ),
        forall|k: int|
            #![trigger changed_paths_spec(files)[k]]
            0 <= k < changed_paths_spec(files).len() ==> exists|i: int, j: int|
                0 <= i < files.len() && 0 <= j < files[i].paths.len() && #[trigger] files[i].paths[j]
                    == changed_paths_spec(files)[k],
    decreases files.len(),
{
    if files.len() > 0 {
        let init = files.drop_last();
        let prev = changed_paths_spec(init);
        let last = files.last().paths;
        lemma_changed_paths(init);
        lemma_push_all_unique(prev, last);
        let r = changed_paths_spec(files);
        assert forall|i: int, j: int|
            0 <= i < files.len() && 0 <= j < files[i].paths.len() implies r.contains(
                #[trigger] files[i].paths[j],
            ) by {
            if i < files.len() - 1 {
                assert(init[i].paths[j] == files[i].paths[j]);
                assert(prev.contains(init[i].paths[j]));
            } else {
                assert(last[j] == files[i].paths[j]);
            }
        }
        assert forall|k: int| #![trigger r[k]] 0 <= k < r.len() implies exists|i: int, j: int|
            0 <= i < files.len() && 0 <= j < files[i].paths.len() && #[trigger] files[i].paths[j] == r[k] by {
            let y = r[k];
            assert(r.contains(y));
            if prev.contains(y) {
                let m = choose|m: int| 0 <= m < prev.len() && prev[m] == y;
                assert(prev[m] == y);
                let (i, j) = choose|i: int, j: int|
                    0 <= i < init.len() && 0 <= j < init[i].paths.len() && #[trigger] init[i].paths[j] == prev[m];
                assert(files[i].paths[j] == y);
            } else {
                let j = choose|j: int| 0 <= j < last.len() && last[j] == y;
                assert(files[files.len() - 1].paths[j] == y);
            }
        }
    }
}

/// The changed paths of a parsed patch are exactly the paths that its file sections
/// name, each once.
pub proof fn lemma_changed_paths_are_the_files_paths(patch: Seq<char>)
    requires
        parse_unified_diff_spec(patch) is Ok,
    ensures
        ({
            let p = parse_unified_diff_spec(patch)->Ok_0;
            &&& p.changed_paths.no_duplicates()
            &&& p.changed_paths.len() > 0
            &&& forall|i: int, j: int|
                0 <= i < p.files.len() && 0 <= j < p.files[i].paths.len() ==> p.changed_paths.contains(
                    #[trigger] p.files[i].paths[j],
                )
            &&& forall|k: int|
                #![trigger p.changed_paths[k]]
                0 <= k < p.changed_paths.len() ==> exists|i: int, j: int|
                    0 <= i < p.files.len() && 0 <= j < p.files[i].paths.len() && #[trigger] p.files[i].paths[j]
                        == p.changed_paths[k]
        }),
{
    let p = parse_unified_diff_spec(patch)->Ok_0;
    lemma_changed_paths(p.files);
}

/// A path that normalization produced.
pub open spec fn is_normalized_path(q: Seq<char>) -> bool {
    exists|raw: Seq<char>| normalize_repo_path_spec(raw) == Some(q)
}

/// A file section's paths: each once and normalized, including its old and new paths.
pub open spec fn file_ok(f: PatchFileView) -> bool {
    &&& f.paths.no_duplicates()
    &&& forall|i: int| 0 <= i < f.paths.len() ==> is_normalized_path(#[trigger] f.paths[i])
    &&& (f.old_path matches Some(o) ==> f.paths.contains(o))
    &&& (f.new_path matches Some(n) ==> f.paths.contains(n))
}

pub open spec fn state_ok(st: ParseStateView) -> bool {
    &&& forall|i: int|
        0 <= i < st.files.len() ==> file_ok(#[trigger] st.files[i]) && st.files[i].paths.len() > 0 && (
        st.files[i].contains_binary_patch ==> st.binary)
    &&& (st.current matches Some(f) ==> file_ok(f) && (f.contains_binary_patch ==> st.binary))
}

proof fn lemma_normalized_token(raw: Seq<char>, allow: bool)
    requires
        normalize_patch_path_spec(raw, allow) matches Ok(Some(_)),
    ensures
        is_normalized_path(normalize_patch_path_spec(raw, allow)->Ok_0->0),
{
    let path = trim(raw);
    let stripped = match strip_prefix(path, "a/"@) {
        Some(rest) => rest,
        None => match strip_prefix(path, "b/"@) {
            Some(rest) => rest,
            None => path,
        },
    };
    assert(normalize_repo_path_spec(stripped) == Some(normalize_patch_path_spec(raw, allow)->Ok_0->0));
}

proof fn lemma_push_unique_ok(f: PatchFileView, p: Seq<char>)
    requires
        f.paths.no_duplicates(),
        forall|i: int| 0 <= i < f.paths.len() ==> is_normalized_path(#[trigger] f.paths[i]),
        is_normalized_path(p),
    ensures
        push_unique_spec(f.paths, p).no_duplicates(),
        forall|i: int| 0 <= i < push_unique_spec(f.paths, p).len() ==> is_normalized_path(
            #[trigger] push_unique_spec(f.paths, p)[i],
        ),
        push_unique_spec(f.paths, p).contains(p),
        forall|x: Seq<char>| f.paths.contains(x) ==> push_unique_spec(f.paths, p).contains(x),
{
    let r = push_unique_spec(f.paths, p);
    if !f.paths.contains(p) {
        assert(r[f.paths.len() as int] == p);
        assert forall|x: Seq<char>| f.paths.contains(x) implies r.contains(x) by {
            let k = choose|k: int| 0 <= k < f.paths.len() && f.paths[k] == x;
            assert(r[k] == x);
        }
        assert forall|i: int, j: int| 0 <= i < r.len() && 0 <= j < r.len() && i != j implies r[i] != r[j] by {
            if i < f.paths.len() && j < f.paths.len() {
                assert(f.paths[i] != f.paths[j]);
            } else if i < f.paths.len() {
                assert(f.paths[i] != p);
            } else {
                assert(f.paths[j] != p);
            }
        }
        assert forall|i: int| 0 <= i < r.len() implies is_normalized_path(#[trigger] r[i]) by {
            if i < f.paths.len() {
                assert(r[i] == f.paths[i]);
            }
        }
    }
}

proof fn lemma_step_keeps_ok(st: ParseStateView, line: Seq<char>)
    requires
        state_ok(st),
        parse_step(st, line) is Ok,
    ensures
        state_ok(parse_step(st, line)->Ok_0),
{
    let next = parse_step(st, line)->Ok_0;
    if strip_prefix(line, "diff --git "@) is Some {
        let rest = strip_prefix(line, "diff --git "@)->0;
        let files = finish_file_spec(st.files, st.current)->Ok_0;
        let tokens = parse_tokens_spec(rest)->Ok_0;
        lemma_normalized_token(tokens[0], false);
        lemma_normalized_token(tokens[1], false);
        let p0 = normalize_patch_path_spec(tokens[0], false)->Ok_0->0;
        let p1 = normalize_patch_path_spec(tokens[1], false)->Ok_0->0;
        let one = PatchFileView { paths: seq![p0], ..empty_file() };
        lemma_push_unique_ok(one, p1);
        assert(next.current == Some(PatchFileView { paths: push_unique_spec(seq![p0], p1), ..empty_file() }));
        assert forall|i: int| 0 <= i < next.files.len() implies file_ok(#[trigger] next.files[i])
            && next.files[i].paths.len() > 0 && (next.files[i].contains_binary_patch ==> next.binary) by {
            if i < st.files.len() {
                assert(next.files[i] == st.files[i]);
            }
        }
    } else if strip_prefix(line, "--- "@) is Some || strip_prefix(line, "+++ "@) is Some {
        let old = strip_prefix(line, "--- "@) is Some;
        let rest = if old {
            strip_prefix(line, "--- "@)->0
        } else {
            strip_prefix(line, "+++ "@)->0
        };
        let parsed = file_header_path_spec(rest);
        let f = match st.current {
            Some(f) => f,
            None => empty_file(),
        };
        if let Ok(Some(p)) = parsed {
            lemma_normalized_token(file_header_token_spec(rest)->Ok_0, true);
            lemma_push_unique_ok(f, p);
        }
    } else if line == "GIT binary patch"@ || strip_prefix(line, "Binary files "@) is Some {
    } else {
    }
}

proof fn lemma_lines_ok(ls: Seq<Seq<char>>)
    requires
        parse_lines(ls) is Ok,
    ensures
        state_ok(parse_lines(ls)->Ok_0),
    decreases ls.len(),
{
    if ls.len() > 0 {
        lemma_lines_ok(ls.drop_last());
        lemma_step_keeps_ok(parse_lines(ls.drop_last())->Ok_0, ls.last());
    }
}

/// Every path of the file sections, in order.
pub open spec fn all_paths(files: Seq<PatchFileView>) -> Seq<Seq<char>>
    decreases files.len(),
{
    if files.len() == 0 {
        seq![]
    } else {
        all_paths(files.drop_last()) + files.last().paths
    }
}

proof fn lemma_push_all_unique_concat(v: Seq<Seq<char>>, xs: Seq<Seq<char>>, ys: Seq<Seq<char>>)
    ensures
        push_all_unique(v, xs + ys) == push_all_unique(push_all_unique(v, xs), ys),
    decreases ys.len(),
{
    if ys.len() == 0 {
        assert(xs + ys =~= xs);
    } else {
        assert((xs + ys).drop_last() =~= xs + ys.drop_last());
        assert((xs + ys).last() == ys.last());
        lemma_push_all_unique_concat(v, xs, ys.drop_last());
    }
}

proof fn lemma_changed_paths_in_order(files: Seq<PatchFileView>)
    ensures
        changed_paths_spec(files) == push_all_unique(seq![], all_paths(files)),
    decreases files.len(),
{
    if files.len() > 0 {
        lemma_changed_paths_in_order(files.drop_last());
        lemma_push_all_unique_concat(seq![], all_paths(files.drop_last()), files.last().paths);
    }
}

/// A parsed patch is well formed: it has file sections; each names its paths once, as
/// normalization produced them, its old and new paths among them; a section with a binary
/// patch marks the whole patch binary; and the changed paths are the sections' paths in
/// order of first mention, each once.
pub proof fn lemma_parsed_patch_is_well_formed(patch: Seq<char>)
    requires
        parse_unified_diff_spec(patch) is Ok,
    ensures
        ({
            let p = parse_unified_diff_spec(patch)->Ok_0;
            &&& p.files.len() > 0
            &&& forall|i: int|
                0 <= i < p.files.len() ==> file_ok(#[trigger] p.files[i]) && p.files[i].paths.len() > 0 && (
                p.files[i].contains_binary_patch ==> p.contains_binary_patch)
            &&& p.changed_paths == push_all_unique(seq![], all_paths(p.files))
            &&& forall|k: int| 0 <= k < p.changed_paths.len() ==> is_normalized_path(#[trigger] p.changed_paths[k])
        }),
{
    let ls = lines(patch);
    lemma_lines_ok(ls);
    let st = parse_lines(ls)->Ok_0;
    let p = parse_unified_diff_spec(patch)->Ok_0;
    assert forall|i: int|
        0 <= i < p.files.len() implies file_ok(#[trigger] p.files[i]) && p.files[i].paths.len() > 0 && (
        p.files[i].contains_binary_patch ==> p.contains_binary_patch) by {
        if i < st.files.len() {
            assert(p.files[i] == st.files[i]);
        } else {
            assert(p.files[i] == st.current->0);
        }
    }
    lemma_changed_paths_in_order(p.files);
    lemma_changed_paths(p.files);
    assert forall|k: int| 0 <= k < p.changed_paths.len() implies is_normalized_path(#[trigger] p.changed_paths[k]) by {
        let (i, j) = choose|i: int, j: int|
            0 <= i < p.files.len() && 0 <= j < p.files[i].paths.len() && #[trigger] p.files[i].paths[j]
                == p.changed_paths[k];
        assert(file_ok(p.files[i]));
    }
}

/// A line by which git marks a binary change: `GIT binary patch`, or a line starting
/// with `Binary files ` as printed without `--binary`.
pub open spec fn is_binary_files_line(line: Seq<char>) -> bool {
    line == "GIT binary patch"@ || crate::text::starts_with(line, "Binary files "@)
}

pub open spec fn is_diff_git_line(line: Seq<char>) -> bool {
    crate::text::starts_with(line, "diff --git "@)
}

pub open spec fn section_binary(st: ParseStateView) -> bool {
    (st.current matches Some(f) && f.contains_binary_patch) || exists|k: int|
        0 <= k < st.files.len() && (#[trigger] st.files[k]).contains_binary_patch
}

proof fn lemma_binary_line_step(line: Seq<char>)
    requires
        is_binary_files_line(line),
    ensures
        strip_prefix(line, "diff --git "@) is None,
        strip_prefix(line, "--- "@) is None,
        strip_prefix(line, "+++ "@) is None,
        line == "GIT binary patch"@ || strip_prefix(line, "Binary files "@) is Some,
{
    reveal_strlit("GIT binary patch");
    reveal_strlit("Binary files ");
    reveal_strlit("diff --git ");
    reveal_strlit("--- ");
    reveal_strlit("+++ ");
    assert(line[0] == 'B' || line[0] == 'G') by {
        if line != "GIT binary patch"@ {
            assert(line.subrange(0, 13)[0] == line[0]);
        }
    }
    if crate::text::starts_with(line, "diff --git "@) {
        assert(line.subrange(0, 11)[0] == line[0]);
    }
    if crate::text::starts_with(line, "--- "@) {
        assert(line.subrange(0, 4)[0] == line[0]);
    }
    if crate::text::starts_with(line, "+++ "@) {
        assert(line.subrange(0, 4)[0] == line[0]);
    }
}

proof fn lemma_binary_invariant(ls: Seq<Seq<char>>, i: int, n: int)
    requires
        0 <= i < ls.len(),
        is_binary_files_line(ls[i]),
        0 <= n <= ls.len(),
        parse_lines(ls.take(n)) is Ok,
    ensures
        ({
            let st = parse_lines(ls.take(n))->Ok_0;
            &&& (i < n ==> st.binary)
            &&& ((exists|j: int| 0 <= j < n && is_diff_git_line(#[trigger] ls[j])) ==> st.current is Some)
            &&& ((i < n && exists|j: int| 0 <= j < i && is_diff_git_line(#[trigger] ls[j])) ==> section_binary(st))
        }),
    decreases n,
{
    if n == 0 {
        assert(ls.take(0) =~= Seq::<Seq<char>>::empty());
    } else {
        let prev_ls = ls.take(n - 1);
        assert(ls.take(n).drop_last() =~= prev_ls);
        assert(ls.take(n).last() == ls[n - 1]);
        lemma_binary_invariant(ls, i, n - 1);
        let prev = parse_lines(prev_ls)->Ok_0;
        let line = ls[n - 1];
        let st = parse_lines(ls.take(n))->Ok_0;
        assert(st == parse_step(prev, line)->Ok_0);
        if n - 1 == i {
            lemma_binary_line_step(line);
            if exists|j: int| 0 <= j < i && is_diff_git_line(#[trigger] ls[j]) {
                assert(prev.current is Some);
            }
        }
        if exists|j: int| 0 <= j < n && is_diff_git_line(#[trigger] ls[j]) {
            let j = choose|j: int| 0 <= j < n && is_diff_git_line(#[trigger] ls[j]);
            if j == n - 1 {
                assert(strip_prefix(line, "diff --git "@) is Some);
            } else {
                assert(prev.current is Some);
            }
        }
        if i < n - 1 && exists|j: int| 0 <= j < i && is_diff_git_line(#[trigger] ls[j]) {
            assert(section_binary(prev));
            if strip_prefix(line, "diff --git "@) is Some {
                let files = finish_file_spec(prev.files, prev.current)->Ok_0;
                if prev.current matches Some(f) && f.contains_binary_patch {
                    assert(files.last() == prev.current->0);
                    assert(st.files[files.len() - 1].contains_binary_patch);
                } else {
                    let k = choose|k: int| 0 <= k < prev.files.len() && (#[trigger] prev.files[k]).contains_binary_patch;
                    assert(st.files[k] == prev.files[k]);
                }
            } else if !(strip_prefix(line, "--- "@) is Some) && !(strip_prefix(line, "+++ "@) is Some) {
                if !(prev.current matches Some(f) && f.contains_binary_patch) {
                    let k = choose|k: int| 0 <= k < prev.files.len() && (#[trigger] prev.files[k]).contains_binary_patch;
                    assert(st.files[k] == prev.files[k]);
                }
            } else {
                if !(prev.current matches Some(f) && f.contains_binary_patch) {
                    let k = choose|k: int| 0 <= k < prev.files.len() && (#[trigger] prev.files[k]).contains_binary_patch;
                    assert(st.files[k] == prev.files[k]);
                }
            }
        }
    }
}

/// A diff with a `Binary files ` line, as git prints it for a binary change made without
/// `--binary`, or a `GIT binary patch` line, is a binary patch; and when a `diff --git` section is in progress at that
/// line, that section is marked binary too.
pub proof fn lemma_binary_files_line_marks_binary(patch: Seq<char>, i: int)
    requires
        parse_unified_diff_spec(patch) is Ok,
        0 <= i < lines(patch).len(),
        is_binary_files_line(lines(patch)[i]),
    ensures
        parse_unified_diff_spec(patch)->Ok_0.contains_binary_patch,
        (exists|j: int| 0 <= j < i && is_diff_git_line(#[trigger] lines(patch)[j])) ==> exists|k: int|
            0 <= k < parse_unified_diff_spec(patch)->Ok_0.files.len() && (
            #[trigger] parse_unified_diff_spec(patch)->Ok_0.files[k]).contains_binary_patch,
{
    let ls = lines(patch);
    assert(ls.take(ls.len() as int) =~= ls);
    lemma_binary_invariant(ls, i, ls.len() as int);
    let st = parse_lines(ls)->Ok_0;
    let p = parse_unified_diff_spec(patch)->Ok_0;
    if exists|j: int| 0 <= j < i && is_diff_git_line(#[trigger] ls[j]) {
        assert(section_binary(st));
        let files = finish_file_spec(st.files, st.current)->Ok_0;
        if st.current matches Some(f) && f.contains_binary_patch {
            assert(p.files[files.len() - 1].contains_binary_patch);
        } else {
            let k = choose|k: int| 0 <= k < st.files.len() && (#[trigger] st.files[k]).contains_binary_patch;
            assert(p.files[k] == st.files[k]);
        }
    }
}

spec fn binary_line_before(ls: Seq<Seq<char>>, n: int) -> bool {
    exists|j: int| 0 <= j < n && is_binary_files_line(#[trigger] ls[j])
}

proof fn lemma_binary_only_from_binary_lines(ls: Seq<Seq<char>>, n: int)
    requires
        0 <= n <= ls.len(),
        parse_lines(ls.take(n)) is Ok,
    ensures
        ({
            let st = parse_lines(ls.take(n))->Ok_0;
            &&& st.binary ==> binary_line_before(ls, n)
            &&& section_binary(st) ==> binary_line_before(ls, n)
        }),
    decreases n,
{
    if n == 0 {
        assert(ls.take(0) =~= Seq::<Seq<char>>::empty());
    } else {
        let prev_ls = ls.take(n - 1);
        assert(ls.take(n).drop_last() =~= prev_ls);
        assert(ls.take(n).last() == ls[n - 1]);
        lemma_binary_only_from_binary_lines(ls, n - 1);
        let prev = parse_lines(prev_ls)->Ok_0;
        let line = ls[n - 1];
        let st = parse_lines(ls.take(n))->Ok_0;
        assert(st == parse_step(prev, line)->Ok_0);
        if binary_line_before(ls, n - 1) {
            let j = choose|j: int| 0 <= j < n - 1 && is_binary_files_line(#[trigger] ls[j]);
            assert(binary_line_before(ls, n));
        } else if strip_prefix(line, "diff --git "@) is Some {
            let files = finish_file_spec(prev.files, prev.current)->Ok_0;
            assert(!section_binary(prev));
            if section_binary(st) {
                let k = choose|k: int| 0 <= k < st.files.len() && (#[trigger] st.files[k]).contains_binary_patch;
                if k < prev.files.len() {
                    assert(st.files[k] == prev.files[k]);
                } else {
                    assert(st.files[k] == prev.current->0);
                }
            }
        } else if strip_prefix(line, "--- "@) is Some || strip_prefix(line, "+++ "@) is Some {
            assert(!section_binary(prev));
            if section_binary(st) {
                if st.current matches Some(f) && f.contains_binary_patch {
                    assert(prev.current is Some);
                } else {
                    let k = choose|k: int| 0 <= k < st.files.len() && (#[trigger] st.files[k]).contains_binary_patch;
                    assert(st.files[k] == prev.files[k]);
                }
            }
        } else if line == "GIT binary patch"@ || strip_prefix(line, "Binary files "@) is Some {
            assert(is_binary_files_line(line));
            assert(binary_line_before(ls, n));
        } else {
            assert(st == prev);
        }
    }
}

/// A diff is marked as holding a binary patch exactly when one of its lines is a
/// `GIT binary patch` line or a line starting with `Binary files `; no file section is
/// marked binary without such a line.
pub proof fn lemma_binary_flag_iff_binary_line(patch: Seq<char>)
    requires
        parse_unified_diff_spec(patch) is Ok,
    ensures
        parse_unified_diff_spec(patch)->Ok_0.contains_binary_patch <==> exists|i: int|
            0 <= i < lines(patch).len() && is_binary_files_line(#[trigger] lines(patch)[i]),
        forall|k: int|
            0 <= k < parse_unified_diff_spec(patch)->Ok_0.files.len() && (
            #[trigger] parse_unified_diff_spec(patch)->Ok_0.files[k]).contains_binary_patch ==> exists|i: int|
                0 <= i < lines(patch).len() && is_binary_files_line(#[trigger] lines(patch)[i]),
{
    let ls = lines(patch);
    assert(ls.take(ls.len() as int) =~= ls);
    lemma_binary_only_from_binary_lines(ls, ls.len() as int);
    let st = parse_lines(ls)->Ok_0;
    let p = parse_unified_diff_spec(patch)->Ok_0;
    if exists|i: int| 0 <= i < ls.len() && is_binary_files_line(#[trigger] ls[i]) {
        let i = choose|i: int| 0 <= i < ls.len() && is_binary_files_line(#[trigger] ls[i]);
        lemma_binary_files_line_marks_binary(patch, i);
    }
    assert forall|k: int|
        0 <= k < p.files.len() && (#[trigger] p.files[k]).contains_binary_patch implies exists|i: int|
            0 <= i < ls.len() && is_binary_files_line(#[trigger] ls[i]) by {
        if k < st.files.len() {
            assert(p.files[k] == st.files[k]);
        } else {
            assert(p.files[k] == st.current->0);
        }
        assert(section_binary(st));
    }
}

} // verus!
