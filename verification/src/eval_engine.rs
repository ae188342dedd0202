//! The decisions of the evaluation engine: which commands may run, under which names
//! and limits, and what of their output is kept.
//!
//! Spawning the commands, resolving directories and executables and reading their output
//! are the caller's; each decision in between is a function here.
use vstd::prelude::*;

use crate::number::{decimal, decimal_exec};
use crate::text::{
    append_chars, chars_of, contains_seq, contains_seq_exec, is_alnum, is_alpha, is_ws, is_whitespace,
    has_prefix, join_chars, replace_all, replace_all_exec, seq_eq, split_once, split_once_exec, starts_with,
    lex_lt, string_of, strip_prefix, strip_prefix_exec, trim, trim_exec,
};

verus! {

pub const DEFAULT_EVAL_TIMEOUT_MS: u64 = 120_000;

pub const MAX_EVAL_TIMEOUT_MS: u64 = 3_600_000;

pub const DEFAULT_EVAL_OUTPUT_BYTES: usize = 64 * 1024;

pub const MAX_EVAL_OUTPUT_BYTES: usize = 1024 * 1024;

/// One required check of an eval config, as the engine reads it. `env` lists the
/// variables in name order, each name once.
#[derive(Debug, Clone, PartialEq, Eq)]
pub struct EvalCommandConfig {
    pub name: String,
    pub command: String,
    pub cwd: Option<String>,
    pub env: Vec<(String, String)>,
    pub timeout_ms: Option<u64>,
    pub max_output_bytes: Option<usize>,
}

/// A refusal or failure of the evaluation engine.
#[derive(Debug, Clone, PartialEq, Eq)]
pub struct EvalEngineError {
    pub message: String,
    pub authority_rejection: bool,
}

impl EvalEngineError {
    pub fn message(message: String) -> (r: Self)
        ensures
            r.message@ == message@,
            !r.authority_rejection,
    {
        EvalEngineError { message, authority_rejection: false }
    }

    /// A refusal because authority changed before a command could start.
    pub fn authority(message: String) -> (r: Self)
        ensures
            r.message@ == message@,
            r.authority_rejection,
    {
        EvalEngineError { message, authority_rejection: true }
    }

    pub fn is_authority_rejection(&self) -> (r: bool)
        ensures
            r == self.authority_rejection,
    {
        self.authority_rejection
    }

    /// The message, as the error displays.
    pub fn to_string(&self) -> (r: String)
        ensures
            r@ == self.message@,
    {
        self.message.clone()
    }
}

/// `format!("{s:?}")`: the string quoted and escaped as `Debug` prints it.
pub uninterp spec fn debug_quoted(s: Seq<char>) -> Seq<char>;

/// `<str as Debug>::fmt`, through `format!("{:?}", s)`: the contract names the quoted,
/// escaped text, a function of the string alone.
#[verifier::external_body]
fn debug_str(s: &str) -> (r: String)
    ensures
        r@ == debug_quoted(s@),
{
    format!("{s:?}")
}

/// `"eval check " + name + rest`.
pub open spec fn check_message(name: Seq<char>, rest: Seq<char>) -> Seq<char> {
    "eval check "@ + name + rest
}

pub(crate) fn check_error(name: &str, rest: &Vec<char>) -> (r: EvalEngineError)
    ensures
        r.message@ == check_message(name@, rest@),
        !r.authority_rejection,
{
    let mut m = chars_of("eval check ");
    append_chars(&mut m, &chars_of(name));
    append_chars(&mut m, rest);
    EvalEngineError::message(string_of(&m))
}

pub open spec fn output_limit_spec(max_output_bytes: Option<usize>) -> Option<usize> {
    let limit = match max_output_bytes {
        Some(v) => v,
        None => DEFAULT_EVAL_OUTPUT_BYTES,
    };
    if limit == 0 || limit > MAX_EVAL_OUTPUT_BYTES {
        None
    } else {
        Some(limit)
    }
}

/// A check's output limit: its own, or 64 KiB; between one byte and 1 MiB.
pub fn normalize_eval_output_limit(name: &str, max_output_bytes: Option<usize>) -> (r: Result<
    usize,
    EvalEngineError,
>)
    ensures
        match r {
            Ok(limit) => output_limit_spec(max_output_bytes) == Some(limit),
            Err(e) => output_limit_spec(max_output_bytes) is None && e.message@ == check_message(
                name@,
                " max_output_bytes must be between 1 and 1048576"@,
            ) && !e.authority_rejection,
        },
{
    let limit = match max_output_bytes {
        Some(v) => v,
        None => DEFAULT_EVAL_OUTPUT_BYTES,
    };
    if limit == 0 || limit > MAX_EVAL_OUTPUT_BYTES {
        return Err(check_error(name, &chars_of(" max_output_bytes must be between 1 and 1048576")));
    }
    Ok(limit)
}

pub open spec fn timeout_spec(timeout_ms: Option<u64>) -> Option<u64> {
    let t = match timeout_ms {
        Some(v) => v,
        None => DEFAULT_EVAL_TIMEOUT_MS,
    };
    if t == 0 || t > MAX_EVAL_TIMEOUT_MS {
        None
    } else {
        Some(t)
    }
}

/// A check's timeout: its own, or two minutes; between 1 ms and one hour.
pub fn normalize_eval_timeout(name: &str, timeout_ms: Option<u64>) -> (r: Result<u64, EvalEngineError>)
    ensures
        match r {
            Ok(t) => timeout_spec(timeout_ms) == Some(t),
            Err(e) => timeout_spec(timeout_ms) is None && e.message@ == check_message(
                name@,
                " timeout_ms must be between 1 and 3600000"@,
            ) && !e.authority_rejection,
        },
{
    let t = match timeout_ms {
        Some(v) => v,
        None => DEFAULT_EVAL_TIMEOUT_MS,
    };
    if t == 0 || t > MAX_EVAL_TIMEOUT_MS {
        return Err(check_error(name, &chars_of(" timeout_ms must be between 1 and 3600000")));
    }
    Ok(t)
}

/// Splitting on whitespace: the words finished so far and the word in progress.
pub open spec fn words_state(s: Seq<char>) -> (Seq<Seq<char>>, Seq<char>)
    decreases s.len(),
{
    if s.len() == 0 {
        (seq![], seq![])
    } else {
        let (done, cur) = words_state(s.drop_last());
        if is_ws(s.last()) {
            if cur.len() > 0 {
                (done.push(cur), seq![])
            } else {
                (done, seq![])
            }
        } else {
            (done, cur.push(s.last()))
        }
    }
}

/// `str::split_whitespace`: the maximal runs of non-whitespace characters.
pub open spec fn words(s: Seq<char>) -> Seq<Seq<char>> {
    let (done, cur) = words_state(s);
    if cur.len() > 0 {
        done.push(cur)
    } else {
        done
    }
}

pub open spec fn strings_view(v: Seq<String>) -> Seq<Seq<char>> {
    v.map_values(|s: String| s@)
}

fn words_exec(s: &Vec<char>) -> (r: Vec<String>)
    ensures
        strings_view(r@) == words(s@),
{
    let mut done: Vec<String> = Vec::new();
    let mut cur: Vec<char> = Vec::new();
    let mut i: usize = 0;
    while i < s.len()
        invariant
            i <= s.len(),
            (strings_view(done@), cur@) == words_state(s@.take(i as int)),
        decreases s.len() - i,
    {
        assert(s@.take(i + 1).drop_last() =~= s@.take(i as int));
        if is_whitespace(s[i]) {
            if cur.len() > 0 {
                let ghost before = strings_view(done@);
                let w = string_of(&cur);
                done.push(w);
                assert(strings_view(done@) =~= before.push(cur@));
                cur = Vec::new();
            }
        } else {
            cur.push(s[i]);
        }
        i = i + 1;
    }
    assert(s@.take(s.len() as int) =~= s@);
    if cur.len() > 0 {
        let ghost before = strings_view(done@);
        let w = string_of(&cur);
        done.push(w);
        assert(strings_view(done@) =~= before.push(cur@));
    }
    done
}

/// The shell metacharacters that a command may not hold, in the order they are checked.
pub open spec fn metacharacters() -> Seq<char> {
    seq![';', '&', '|', '<', '>', '`', '\n', '\r']
}

/// The first metacharacter, in checking order, that `s` holds.
pub open spec fn first_metacharacter(s: Seq<char>, from: int) -> Option<char>
    decreases 8 - from,
{
    if from < 0 || from >= 8 {
        None
    } else if s.contains(metacharacters()[from]) {
        Some(metacharacters()[from])
    } else {
        first_metacharacter(s, from + 1)
    }
}

/// A command line as argv: no NUL, no shell metacharacter, no quoting, at least one word.
pub open spec fn parse_eval_command_spec(command: Seq<char>) -> Result<Seq<Seq<char>>, Seq<char>> {
    if command.contains('\0') {
        Err("command must not contain NUL bytes"@)
    } else if contains_seq(command, "$("@) {
        Err("shell metacharacter '$(' is not supported"@)
    } else if first_metacharacter(command, 0) is Some {
        Err("shell metacharacter '"@ + seq![first_metacharacter(command, 0)->0] + "' is not supported"@)
    } else if command.contains('"') || command.contains('\'') {
        Err("quoted shell syntax is not supported"@)
    } else if words(command).len() == 0 {
        Err("command must not be empty"@)
    } else {
        Ok(words(command))
    }
}

fn contains_char(s: &Vec<char>, c: char) -> (r: bool)
    ensures
        r == s@.contains(c),
{
    let mut i: usize = 0;
    while i < s.len()
        invariant
            i <= s.len(),
            forall|j: int| 0 <= j < i ==> s@[j] != c,
        decreases s.len() - i,
    {
        if s[i] == c {
            return true;
        }
        i = i + 1;
    }
    false
}

pub fn parse_eval_command(command: &str) -> (r: Result<Vec<String>, String>)
    ensures
        match r {
            Ok(argv) => parse_eval_command_spec(command@) == Ok::<Seq<Seq<char>>, Seq<char>>(
                strings_view(argv@),
            ),
            Err(m) => parse_eval_command_spec(command@) == Err::<Seq<Seq<char>>, Seq<char>>(m@),
        },
{
    let c = chars_of(command);
    if contains_char(&c, '\0') {
        return Err(string_of(&chars_of("command must not contain NUL bytes")));
    }
    if contains_seq_exec(&c, &chars_of("$(")) {
        return Err(string_of(&chars_of("shell metacharacter '$(' is not supported")));
    }
    let metas: [char; 8] = [';', '&', '|', '<', '>', '`', '\n', '\r'];
    assert(metas@ == metacharacters());
    let mut k: usize = 0;
    while k < 8
        invariant
            k <= 8,
            metas@ == metacharacters(),
            c@ == command@,
            !c@.contains('\0'),
            !contains_seq(c@, "$("@),
            first_metacharacter(c@, 0) == first_metacharacter(c@, k as int),
        decreases 8 - k,
    {
        if contains_char(&c, metas[k]) {
            let mut m = chars_of("shell metacharacter '");
            m.push(metas[k]);
            append_chars(&mut m, &chars_of("' is not supported"));
            assert(m@ =~= "shell metacharacter '"@ + seq![metas@[k as int]] + "' is not supported"@);
            return Err(string_of(&m));
        }
        k = k + 1;
    }
    if contains_char(&c, '"') || contains_char(&c, '\'') {
        return Err(string_of(&chars_of("quoted shell syntax is not supported")));
    }
    let argv = words_exec(&c);
    if argv.len() == 0 {
        return Err(string_of(&chars_of("command must not be empty")));
    }
    Ok(argv)
}


/// The words of `v` joined by `sep`.
pub open spec fn join_words(v: Seq<Seq<char>>, sep: Seq<char>) -> Seq<char>
    decreases v.len(),
{
    if v.len() == 0 {
        seq![]
    } else if v.len() == 1 {
        v[0]
    } else {
        join_words(v.drop_last(), sep) + sep + v.last()
    }
}

fn join_exec(v: &[String], sep: &Vec<char>) -> (r: Vec<char>)
    ensures
        r@ == join_words(strings_view(v@), sep@),
{
    let mut r: Vec<char> = Vec::new();
    let mut i: usize = 0;
    while i < v.len()
        invariant
            i <= v.len(),
            r@ == join_words(strings_view(v@).take(i as int), sep@),
        decreases v.len() - i,
    {
        let ghost sv = strings_view(v@);
        assert(sv.take(i + 1).drop_last() =~= sv.take(i as int));
        assert(sv.take(i + 1).last() == v@[i as int]@);
        if i > 0 {
            append_chars(&mut r, sep);
        } else {
            assert(sv.take(1) =~= seq![v@[0]@]);
        }
        append_chars(&mut r, &chars_of(v[i].as_str()));
        i = i + 1;
    }
    assert(strings_view(v@).take(v.len() as int) =~= strings_view(v@));
    r
}

/// Whether some allowlist entry from `i` on is a word prefix of `argv`, or the first
/// entry that does not parse.
pub open spec fn allowed_from(argv: Seq<Seq<char>>, allow: Seq<Seq<char>>, i: int) -> Result<
    (),
    Seq<char>,
>
    decreases allow.len() - i,
{
    if i < 0 || i >= allow.len() {
        Err(join_words(argv, " "@) + " is not allowed"@)
    } else {
        match parse_eval_command_spec(allow[i]) {
            Err(e) => Err("invalid allowlist entry "@ + debug_quoted(allow[i]) + ": "@ + e),
            Ok(a) => if a.len() <= argv.len() && argv.take(a.len() as int) == a {
                Ok(())
            } else {
                allowed_from(argv, allow, i + 1)
            },
        }
    }
}

fn is_word_prefix(a: &Vec<String>, argv: &[String]) -> (r: bool)
    ensures
        r == (a@.len() <= argv@.len() && strings_view(argv@).take(a@.len() as int) == strings_view(
            a@,
        )),
{
    if a.len() > argv.len() {
        return false;
    }
    let mut i: usize = 0;
    while i < a.len()
        invariant
            i <= a.len() <= argv.len(),
            forall|j: int| 0 <= j < i ==> (#[trigger] a@[j])@ == argv@[j]@,
        decreases a.len() - i,
    {
        if !seq_eq(&chars_of(a[i].as_str()), &chars_of(argv[i].as_str())) {
            assert(strings_view(argv@).take(a@.len() as int)[i as int] != strings_view(a@)[i as int]);
            return false;
        }
        i = i + 1;
    }
    assert(strings_view(argv@).take(a@.len() as int) =~= strings_view(a@));
    true
}

/// Whether an allowlist entry is a word prefix of the command.
pub fn ensure_command_allowed(argv: &[String], allow_commands: &[String]) -> (r: Result<(), String>)
    ensures
        match r {
            Ok(()) => allowed_from(strings_view(argv@), strings_view(allow_commands@), 0) is Ok,
            Err(m) => allowed_from(strings_view(argv@), strings_view(allow_commands@), 0) == Err::<
                (),
                Seq<char>,
            >(m@),
        },
{
    let ghost av = strings_view(argv@);
    let ghost lv = strings_view(allow_commands@);
    let mut i: usize = 0;
    while i < allow_commands.len()
        invariant
            i <= allow_commands.len(),
            av == strings_view(argv@),
            lv == strings_view(allow_commands@),
            allowed_from(av, lv, 0) == allowed_from(av, lv, i as int),
        decreases allow_commands.len() - i,
    {
        assert(lv[i as int] == allow_commands@[i as int]@);
        match parse_eval_command(allow_commands[i].as_str()) {
            Err(e) => {
                let mut m = chars_of("invalid allowlist entry ");
                append_chars(&mut m, &chars_of(debug_str(allow_commands[i].as_str()).as_str()));
                append_chars(&mut m, &chars_of(": "));
                append_chars(&mut m, &chars_of(e.as_str()));
                return Err(string_of(&m));
            },
            Ok(a) => {
                if is_word_prefix(&a, argv) {
                    return Ok(());
                }
            },
        }
        i = i + 1;
    }
    let mut m = join_exec(argv, &chars_of(" "));
    append_chars(&mut m, &chars_of(" is not allowed"));
    Err(string_of(&m))
}

pub open spec fn ascii_lower(c: char) -> char {
    if 'A' <= c && c <= 'Z' {
        ((c as u32) + 32) as char
    } else {
        c
    }
}

/// `str::eq_ignore_ascii_case`.
pub open spec fn eq_ignore_ascii_case(a: Seq<char>, b: Seq<char>) -> bool {
    a.len() == b.len() && forall|i: int| 0 <= i < a.len() ==> ascii_lower(#[trigger] a[i]) == ascii_lower(b[i])
}

fn ascii_lower_exec(c: char) -> (r: char)
    ensures
        r == ascii_lower(c),
{
    if 'A' <= c && c <= 'Z' {
        ((c as u8) + 32) as char
    } else {
        c
    }
}

fn eq_ignore_ascii_case_exec(a: &Vec<char>, b: &Vec<char>) -> (r: bool)
    ensures
        r == eq_ignore_ascii_case(a@, b@),
{
    if a.len() != b.len() {
        return false;
    }
    let mut i: usize = 0;
    while i < a.len()
        invariant
            i <= a.len() == b.len(),
            forall|j: int| 0 <= j < i ==> ascii_lower(#[trigger] a@[j]) == ascii_lower(b@[j]),
        decreases a.len() - i,
    {
        if ascii_lower_exec(a[i]) != ascii_lower_exec(b[i]) {
            return false;
        }
        i = i + 1;
    }
    true
}

/// An environment variable name: a letter or `_`, then letters, digits and `_`.
pub open spec fn is_safe_env_name_spec(name: Seq<char>) -> bool {
    &&& name.len() > 0
    &&& (name[0] == '_' || is_alpha(name[0]))
    &&& forall|i: int| 1 <= i < name.len() ==> (#[trigger] name[i] == '_' || is_alnum(name[i]))
}

pub fn is_safe_env_name(name: &str) -> (r: bool)
    ensures
        r == is_safe_env_name_spec(name@),
{
    let c = chars_of(name);
    if c.len() == 0 {
        return false;
    }
    let first = c[0];
    if !(first == '_' || ('a' <= first && first <= 'z') || ('A' <= first && first <= 'Z')) {
        return false;
    }
    let mut i: usize = 1;
    while i < c.len()
        invariant
            1 <= i <= c.len(),
            c@ == name@,
            forall|j: int| 1 <= j < i ==> (#[trigger] c@[j] == '_' || is_alnum(c@[j])),
        decreases c.len() - i,
    {
        let ch = c[i];
        if !(ch == '_' || ('0' <= ch && ch <= '9') || ('a' <= ch && ch <= 'z') || ('A' <= ch && ch
            <= 'Z')) {
            return false;
        }
        i = i + 1;
    }
    true
}

pub open spec fn env_error(check: Seq<char>, var: Seq<char>, rest: Seq<char>) -> Seq<char> {
    check_message(check, " env var "@ + debug_quoted(var) + rest)
}

/// The first variable, in name order, that the engine refuses: `PATH` in any case, an
/// unsafe name, or a value with a NUL.
pub open spec fn env_check_from(check: Seq<char>, env: Seq<(String, String)>, i: int) -> Result<
    (),
    Seq<char>,
>
    decreases env.len() - i,
{
    if i < 0 || i >= env.len() {
        Ok(())
    } else {
        let name = env[i].0@;
        let value = env[i].1@;
        if eq_ignore_ascii_case(name, "PATH"@) {
            Err(env_error(check, name, " is not allowed"@))
        } else if !is_safe_env_name_spec(name) {
            Err(env_error(check, name, " is invalid"@))
        } else if value.contains('\0') {
            Err(env_error(check, name, " value must not contain NUL bytes"@))
        } else {
            env_check_from(check, env, i + 1)
        }
    }
}

fn env_error_exec(check: &str, var: &str, rest: &str) -> (r: EvalEngineError)
    ensures
        r.message@ == env_error(check@, var@, rest@),
        !r.authority_rejection,
{
    let mut m = chars_of(" env var ");
    append_chars(&mut m, &chars_of(debug_str(var).as_str()));
    append_chars(&mut m, &chars_of(rest));
    check_error(check, &m)
}

pub fn validate_eval_env(check: &EvalCommandConfig) -> (r: Result<(), EvalEngineError>)
    ensures
        match r {
            Ok(()) => env_check_from(check.name@, check.env@, 0) is Ok,
            Err(e) => env_check_from(check.name@, check.env@, 0) == Err::<(), Seq<char>>(e.message@)
                && !e.authority_rejection,
        },
{
    let mut i: usize = 0;
    while i < check.env.len()
        invariant
            i <= check.env.len(),
            env_check_from(check.name@, check.env@, 0) == env_check_from(check.name@, check.env@, i as int),
        decreases check.env.len() - i,
    {
        let name = check.env[i].0.as_str();
        let value = check.env[i].1.as_str();
        if eq_ignore_ascii_case_exec(&chars_of(name), &chars_of("PATH")) {
            return Err(env_error_exec(check.name.as_str(), name, " is not allowed"));
        }
        if !is_safe_env_name(name) {
            return Err(env_error_exec(check.name.as_str(), name, " is invalid"));
        }
        if contains_char(&chars_of(value), '\0') {
            return Err(env_error_exec(check.name.as_str(), name, " value must not contain NUL bytes"));
        }
        i = i + 1;
    }
    Ok(())
}

/// The command of a check as argv, where the check names itself and the command parses
/// and is allowed by the eval config and, when it restricts autonomy, the ticket.
pub open spec fn check_command_spec(
    name: Seq<char>,
    command: Seq<char>,
    eval_allow: Seq<Seq<char>>,
    ticket_allow: Option<Seq<Seq<char>>>,
) -> Result<Seq<Seq<char>>, Seq<char>> {
    if trim(name).len() == 0 {
        Err("eval check name must not be empty"@)
    } else if trim(command).len() == 0 {
        Err(check_message(name, " command must not be empty"@))
    } else {
        match parse_eval_command_spec(command) {
            Err(e) => Err(check_message(name, " command rejected: "@ + e)),
            Ok(argv) => match allowed_from(argv, eval_allow, 0) {
                Err(e) => Err(check_message(name, " command rejected by eval allow_commands: "@ + e)),
                Ok(()) => match ticket_allow {
                    None => Ok(argv),
                    Some(t) => match allowed_from(argv, t, 0) {
                        Err(e) => Err(check_message(name, " command rejected by ticket autonomy: "@ + e)),
                        Ok(()) => Ok(argv),
                    },
                },
            },
        }
    }
}

fn prefixed_error(name: &str, prefix: &str, e: &String) -> (r: EvalEngineError)
    ensures
        r.message@ == check_message(name@, prefix@ + e@),
        !r.authority_rejection,
{
    let mut m = chars_of(prefix);
    append_chars(&mut m, &chars_of(e.as_str()));
    check_error(name, &m)
}

/// The checks that planning makes before it looks at the file system.
pub fn plan_eval_check_command(
    check: &EvalCommandConfig,
    eval_allow_commands: &[String],
    ticket_allow_commands: Option<&[String]>,
) -> (r: Result<Vec<String>, EvalEngineError>)
    ensures
        match r {
            Ok(argv) => check_command_spec(
                check.name@,
                check.command@,
                strings_view(eval_allow_commands@),
                match ticket_allow_commands {
                    Some(t) => Some(strings_view(t@)),
                    None => None,
                },
            ) == Ok::<Seq<Seq<char>>, Seq<char>>(strings_view(argv@)),
            Err(e) => check_command_spec(
                check.name@,
                check.command@,
                strings_view(eval_allow_commands@),
                match ticket_allow_commands {
                    Some(t) => Some(strings_view(t@)),
                    None => None,
                },
            ) == Err::<Seq<Seq<char>>, Seq<char>>(e.message@) && !e.authority_rejection,
        },
{
    let name = check.name.as_str();
    if trim_exec(&chars_of(name)).len() == 0 {
        return Err(EvalEngineError::message(string_of(&chars_of("eval check name must not be empty"))));
    }
    if trim_exec(&chars_of(check.command.as_str())).len() == 0 {
        return Err(check_error(name, &chars_of(" command must not be empty")));
    }
    let argv = match parse_eval_command(check.command.as_str()) {
        Ok(argv) => argv,
        Err(e) => {
            return Err(prefixed_error(name, " command rejected: ", &e));
        },
    };
    match ensure_command_allowed(argv.as_slice(), eval_allow_commands) {
        Ok(()) => {},
        Err(e) => {
            return Err(prefixed_error(name, " command rejected by eval allow_commands: ", &e));
        },
    }
    match ticket_allow_commands {
        Some(t) => match ensure_command_allowed(argv.as_slice(), t) {
            Ok(()) => {},
            Err(e) => {
                return Err(prefixed_error(name, " command rejected by ticket autonomy: ", &e));
            },
        },
        None => {},
    }
    Ok(argv)
}

/// The limits that planning checks last: the timeout, then the output limit.
pub fn plan_eval_check_limits(check: &EvalCommandConfig) -> (r: Result<(u64, usize), EvalEngineError>)
    ensures
        match r {
            Ok((t, m)) => timeout_spec(check.timeout_ms) == Some(t) && output_limit_spec(
                check.max_output_bytes,
            ) == Some(m),
            Err(e) => (timeout_spec(check.timeout_ms) is None && e.message@ == check_message(
                check.name@,
                " timeout_ms must be between 1 and 3600000"@,
            )) || (timeout_spec(check.timeout_ms) is Some && output_limit_spec(check.max_output_bytes) is None
                && e.message@ == check_message(
                check.name@,
                " max_output_bytes must be between 1 and 1048576"@,
            )),
        },
{
    let t = normalize_eval_timeout(check.name.as_str(), check.timeout_ms)?;
    let m = normalize_eval_output_limit(check.name.as_str(), check.max_output_bytes)?;
    Ok((t, m))
}


/// `String::from_utf8_lossy`: the text that the bytes decode to, each invalid sequence
/// replaced by U+FFFD.
pub uninterp spec fn utf8_lossy(bytes: Seq<u8>) -> Seq<char>;

/// `String::from_utf8_lossy`; the contract names the decoded text, a function of the
/// bytes alone.
#[verifier::external_body]
fn decode_lossy(bytes: &[u8]) -> (r: String)
    ensures
        r@ == utf8_lossy(bytes@),
{
    String::from_utf8_lossy(bytes).into_owned()
}

pub open spec fn ascii_upper(c: char) -> char {
    if 'a' <= c && c <= 'z' {
        ((c as u32) - 32) as char
    } else {
        c
    }
}

pub open spec fn upper(s: Seq<char>) -> Seq<char> {
    s.map_values(|c: char| ascii_upper(c))
}

/// A variable or label name that marks a secret: it holds KEY, TOKEN, SECRET or PASSWORD
/// in any ASCII case.
pub open spec fn is_sensitive_name_spec(name: Seq<char>) -> bool {
    let u = upper(name);
    contains_seq(u, "KEY"@) || contains_seq(u, "TOKEN"@) || contains_seq(u, "SECRET"@)
        || contains_seq(u, "PASSWORD"@)
}

fn upper_exec(s: &Vec<char>) -> (r: Vec<char>)
    ensures
        r@ == upper(s@),
{
    let mut r: Vec<char> = Vec::new();
    let mut i: usize = 0;
    while i < s.len()
        invariant
            i <= s.len(),
            r@ == upper(s@.take(i as int)),
        decreases s.len() - i,
    {
        let c = s[i];
        let u = if 'a' <= c && c <= 'z' {
            ((c as u8) - 32) as char
        } else {
            c
        };
        r.push(u);
        assert(upper(s@.take(i + 1)) =~= upper(s@.take(i as int)).push(ascii_upper(c)));
        i = i + 1;
    }
    assert(s@.take(s.len() as int) =~= s@);
    r
}

pub fn is_sensitive_name(name: &Vec<char>) -> (r: bool)
    ensures
        r == is_sensitive_name_spec(name@),
{
    let u = upper_exec(name);
    contains_seq_exec(&u, &chars_of("KEY")) || contains_seq_exec(&u, &chars_of("TOKEN"))
        || contains_seq_exec(&u, &chars_of("SECRET")) || contains_seq_exec(&u, &chars_of("PASSWORD"))
}

/// The punctuation that may wrap a secret in prose.
pub open spec fn is_wrapping_punctuation(c: char) -> bool {
    c == '"' || c == '\'' || c == ',' || c == '.' || c == ':' || c == ';' || c == '(' || c == ')'
        || c == '[' || c == ']' || c == '{' || c == '}'
}

/// The number of leading characters of `s` that are wrapping punctuation.
pub open spec fn leading_punctuation(s: Seq<char>) -> nat
    decreases s.len(),
{
    if s.len() > 0 && is_wrapping_punctuation(s[0]) {
        1 + leading_punctuation(s.skip(1))
    } else {
        0
    }
}

/// The number of trailing characters of `s` that are wrapping punctuation.
pub open spec fn trailing_punctuation(s: Seq<char>) -> nat
    decreases s.len(),
{
    if s.len() > 0 && is_wrapping_punctuation(s.last()) {
        1 + trailing_punctuation(s.drop_last())
    } else {
        0
    }
}

/// `trim_matches` of the wrapping punctuation at both ends.
pub open spec fn trim_secret_token_spec(token: Seq<char>) -> Seq<char> {
    let rest = token.skip(leading_punctuation(token) as int);
    rest.take(rest.len() - trailing_punctuation(rest))
}

proof fn lemma_leading_bound(s: Seq<char>)
    ensures
        leading_punctuation(s) <= s.len(),
        forall|j: int| 0 <= j < leading_punctuation(s) ==> is_wrapping_punctuation(#[trigger] s[j]),
        leading_punctuation(s) < s.len() ==> !is_wrapping_punctuation(s[leading_punctuation(s) as int]),
    decreases s.len(),
{
    if s.len() > 0 && is_wrapping_punctuation(s[0]) {
        lemma_leading_bound(s.skip(1));
        assert forall|j: int| 0 <= j < leading_punctuation(s) implies is_wrapping_punctuation(#[trigger] s[j]) by {
            if j > 0 {
                assert(s[j] == s.skip(1)[j - 1]);
            }
        }
        if leading_punctuation(s) < s.len() {
            assert(s[leading_punctuation(s) as int] == s.skip(1)[leading_punctuation(s.skip(1)) as int]);
        }
    }
}

proof fn lemma_leading_at(s: Seq<char>, k: int)
    requires
        0 <= k <= s.len(),
        forall|j: int| 0 <= j < k ==> is_wrapping_punctuation(#[trigger] s[j]),
        k == s.len() || !is_wrapping_punctuation(s[k]),
    ensures
        leading_punctuation(s) == k,
    decreases k,
{
    if k > 0 {
        assert forall|j: int| 0 <= j < k - 1 implies is_wrapping_punctuation(#[trigger] s.skip(1)[j]) by {
            assert(s.skip(1)[j] == s[j + 1]);
        }
        if k - 1 < s.skip(1).len() {
            assert(s.skip(1)[k - 1] == s[k]);
        }
        lemma_leading_at(s.skip(1), k - 1);
    }
}

proof fn lemma_trailing_at(s: Seq<char>, k: int)
    requires
        0 <= k <= s.len(),
        forall|j: int| s.len() - k <= j < s.len() ==> is_wrapping_punctuation(#[trigger] s[j]),
        k == s.len() || !is_wrapping_punctuation(s[s.len() - k - 1]),
    ensures
        trailing_punctuation(s) == k,
    decreases k,
{
    if k > 0 {
        let t = s.drop_last();
        assert forall|j: int| t.len() - (k - 1) <= j < t.len() implies is_wrapping_punctuation(#[trigger] t[j]) by {
            assert(t[j] == s[j]);
        }
        if k - 1 < t.len() {
            assert(t[t.len() - (k - 1) - 1] == s[s.len() - k - 1]);
        }
        assert(s.last() == s[s.len() - 1]);
        lemma_trailing_at(t, k - 1);
    } else if s.len() > 0 {
        assert(s.last() == s[s.len() - 1]);
    }
}

fn is_wrapping_punctuation_exec(c: char) -> (r: bool)
    ensures
        r == is_wrapping_punctuation(c),
{
    c == '"' || c == '\'' || c == ',' || c == '.' || c == ':' || c == ';' || c == '(' || c == ')'
        || c == '[' || c == ']' || c == '{' || c == '}'
}

pub fn trim_secret_token(token: &Vec<char>) -> (r: Vec<char>)
    ensures
        r@ == trim_secret_token_spec(token@),
{
    let mut a: usize = 0;
    while a < token.len() && is_wrapping_punctuation_exec(token[a])
        invariant
            a <= token.len(),
            forall|j: int| 0 <= j < a ==> is_wrapping_punctuation(#[trigger] token@[j]),
        decreases token.len() - a,
    {
        a = a + 1;
    }
    proof {
        lemma_leading_at(token@, a as int);
    }
    let ghost rest = token@.skip(a as int);
    let mut k: usize = 0;
    while k < token.len() - a && is_wrapping_punctuation_exec(token[token.len() - 1 - k])
        invariant
            a <= token.len(),
            rest == token@.skip(a as int),
            k <= token.len() - a,
            forall|j: int| rest.len() - k <= j < rest.len() ==> is_wrapping_punctuation(#[trigger] rest[j]),
        decreases token.len() - a - k,
    {
        assert(rest[rest.len() - k - 1] == token@[token.len() - 1 - k]);
        k = k + 1;
    }
    proof {
        if k < rest.len() {
            assert(rest[rest.len() - k - 1] == token@[token.len() - 1 - k]);
        }
        lemma_trailing_at(rest, k as int);
    }
    let r = crate::text::slice_of(token, a, token.len() - k);
    assert(r@ =~= rest.take(rest.len() - k));
    r
}


/// The prefixes of well-known credential formats.
pub open spec fn secret_prefixes() -> Seq<Seq<char>> {
    seq!["sk-proj-"@, "sk-"@, "ghp_"@, "github_pat_"@, "xoxb-"@, "xoxp-"@, "xoxa-"@]
}

pub open spec fn is_secret_body_char(c: char) -> bool {
    c == '_' || c == '-' || is_alnum(c)
}

/// `candidate` is `prefix` followed by at least 16 characters of `[A-Za-z0-9_-]`.
pub open spec fn has_secret_shape(candidate: Seq<char>, prefix: Seq<char>) -> bool {
    match strip_prefix(candidate, prefix) {
        Some(rest) => rest.len() >= 16 && forall|i: int| 0 <= i < rest.len() ==> is_secret_body_char(
            #[trigger] rest[i],
        ),
        None => false,
    }
}

/// A token that, without its wrapping punctuation, is a well-known credential.
pub open spec fn is_obvious_standalone_secret_spec(token: Seq<char>) -> bool {
    exists|i: int| 0 <= i < 7 && has_secret_shape(trim_secret_token_spec(token), #[trigger] secret_prefixes()[i])
}

fn has_secret_shape_exec(candidate: &Vec<char>, prefix: &Vec<char>) -> (r: bool)
    ensures
        r == has_secret_shape(candidate@, prefix@),
{
    match strip_prefix_exec(candidate, prefix) {
        None => false,
        Some(rest) => {
            if rest.len() < 16 {
                return false;
            }
            let mut i: usize = 0;
            while i < rest.len()
                invariant
                    i <= rest.len(),
                    rest.len() >= 16,
                    strip_prefix(candidate@, prefix@) == Some(rest@),
                    forall|j: int| 0 <= j < i ==> is_secret_body_char(#[trigger] rest@[j]),
                decreases rest.len() - i,
            {
                let c = rest[i];
                if !(c == '_' || c == '-' || ('0' <= c && c <= '9') || ('a' <= c && c <= 'z') || ('A'
                    <= c && c <= 'Z')) {
                    return false;
                }
                i = i + 1;
            }
            true
        },
    }
}

pub fn is_obvious_standalone_secret(token: &Vec<char>) -> (r: bool)
    ensures
        r == is_obvious_standalone_secret_spec(token@),
{
    let candidate = trim_secret_token(token);
    let prefixes: [&str; 7] = ["sk-proj-", "sk-", "ghp_", "github_pat_", "xoxb-", "xoxp-", "xoxa-"];
    let mut i: usize = 0;
    while i < 7
        invariant
            i <= 7,
            candidate@ == trim_secret_token_spec(token@),
            forall|j: int| 0 <= j < 7 ==> (#[trigger] prefixes@[j])@ == secret_prefixes()[j],
            forall|j: int| 0 <= j < i ==> !has_secret_shape(candidate@, #[trigger] secret_prefixes()[j]),
        decreases 7 - i,
    {
        if has_secret_shape_exec(&candidate, &chars_of(prefixes[i])) {
            assert(has_secret_shape(candidate@, secret_prefixes()[i as int]));
            return true;
        }
        i = i + 1;
    }
    false
}

/// `label<sep>prefix` where the label names a secret (this variable or any sensitive
/// name) and `prefix` is a proper prefix of the variable's value.
pub open spec fn labeled_by(candidate: Seq<char>, name: Seq<char>, value: Seq<char>, sep: char) -> bool {
    match split_once(candidate, sep) {
        None => false,
        Some((label, prefix)) => prefix.len() > 0 && (label == name || is_sensitive_name_spec(label))
            && value.len() > prefix.len() && starts_with(value, prefix),
    }
}

pub open spec fn is_labeled_configured_secret_prefix_spec(
    candidate: Seq<char>,
    name: Seq<char>,
    value: Seq<char>,
) -> bool {
    labeled_by(candidate, name, value, ':') || labeled_by(candidate, name, value, '=')
}

fn labeled_by_exec(candidate: &Vec<char>, name: &Vec<char>, value: &Vec<char>, sep: char) -> (r: bool)
    ensures
        r == labeled_by(candidate@, name@, value@, sep),
{
    match split_once_exec(candidate, sep) {
        None => false,
        Some((label, prefix)) => prefix.len() > 0 && (seq_eq(&label, name) || is_sensitive_name(&label))
            && value.len() > prefix.len() && has_prefix(value, &prefix),
    }
}

pub fn is_labeled_configured_secret_prefix(candidate: &Vec<char>, name: &Vec<char>, value: &Vec<char>) -> (r: bool)
    ensures
        r == is_labeled_configured_secret_prefix_spec(candidate@, name@, value@),
{
    labeled_by_exec(candidate, name, value, ':') || labeled_by_exec(candidate, name, value, '=')
}

/// Whether the secret-named variable `(name, value)` is partly leaked by `candidate`.
pub open spec fn leaks_prefix_of(candidate: Seq<char>, name: Seq<char>, value: Seq<char>) -> bool {
    is_sensitive_name_spec(name) && ((value.len() > candidate.len() && starts_with(value, candidate))
        || is_labeled_configured_secret_prefix_spec(candidate, name, value))
}

/// A token that, without its wrapping punctuation, is a proper prefix of a configured
/// secret's value, bare or labeled.
pub open spec fn is_configured_secret_prefix_spec(token: Seq<char>, env: Seq<(String, String)>) -> bool {
    let candidate = trim_secret_token_spec(token);
    candidate.len() > 0 && exists|i: int| 0 <= i < env.len() && leaks_prefix_of(candidate, (#[trigger] env[i]).0@, env[i].1@)
}

pub fn is_configured_secret_prefix(token: &Vec<char>, env: &Vec<(String, String)>) -> (r: bool)
    ensures
        r == is_configured_secret_prefix_spec(token@, env@),
{
    let candidate = trim_secret_token(token);
    if candidate.len() == 0 {
        return false;
    }
    let mut i: usize = 0;
    while i < env.len()
        invariant
            i <= env.len(),
            candidate@ == trim_secret_token_spec(token@),
            candidate@.len() > 0,
            forall|j: int| 0 <= j < i ==> !leaks_prefix_of(candidate@, (#[trigger] env@[j]).0@, env@[j].1@),
        decreases env.len() - i,
    {
        let name = chars_of(env[i].0.as_str());
        let value = chars_of(env[i].1.as_str());
        if is_sensitive_name(&name) && ((value.len() > candidate.len() && has_prefix(&value, &candidate))
            || is_labeled_configured_secret_prefix(&candidate, &name, &value)) {
            assert(leaks_prefix_of(candidate@, env@[i as int].0@, env@[i as int].1@));
            return true;
        }
        i = i + 1;
    }
    false
}

/// The three token passes of log sanitizing, in the order they run.
#[derive(Debug, Clone, Copy, PartialEq, Eq, Structural)]
pub enum RedactionPass {
    ConfiguredPrefixes,
    SensitiveAssignments,
    StandaloneSecrets,
}

/// What a pass makes of one whitespace-delimited token.
pub open spec fn redact_token_spec(pass: RedactionPass, token: Seq<char>, env: Seq<(String, String)>) -> Seq<
    char,
> {
    match pass {
        RedactionPass::ConfiguredPrefixes => if is_configured_secret_prefix_spec(token, env) {
            "[REDACTED]"@
        } else {
            token
        },
        RedactionPass::SensitiveAssignments => match split_once(token, '=') {
            None => token,
            Some((name, _)) => if is_sensitive_name_spec(name) {
                name + "=[REDACTED]"@
            } else {
                token
            },
        },
        RedactionPass::StandaloneSecrets => if is_obvious_standalone_secret_spec(token) {
            "[REDACTED]"@
        } else {
            match split_once(token, ':') {
                Some((label, value)) => if label.len() > 0 && is_obvious_standalone_secret_spec(value) {
                    label + ":[REDACTED]"@
                } else {
                    token
                },
                None => token,
            }
        },
    }
}

fn redact_token(pass: RedactionPass, token: &Vec<char>, env: &Vec<(String, String)>) -> (r: Vec<char>)
    ensures
        r@ == redact_token_spec(pass, token@, env@),
{
    match pass {
        RedactionPass::ConfiguredPrefixes => if is_configured_secret_prefix(token, env) {
            chars_of("[REDACTED]")
        } else {
            token.clone()
        },
        RedactionPass::SensitiveAssignments => match split_once_exec(token, '=') {
            None => token.clone(),
            Some((name, _)) => if is_sensitive_name(&name) {
                join_chars(&name, &chars_of("=[REDACTED]"))
            } else {
                token.clone()
            },
        },
        RedactionPass::StandaloneSecrets => if is_obvious_standalone_secret(token) {
            chars_of("[REDACTED]")
        } else {
            match split_once_exec(token, ':') {
                Some((label, value)) => if label.len() > 0 && is_obvious_standalone_secret(&value) {
                    join_chars(&label, &chars_of(":[REDACTED]"))
                } else {
                    token.clone()
                },
                None => token.clone(),
            }
        },
    }
}

/// Rewriting token by token: the text finished so far and the token in progress.
pub open spec fn redact_state(text: Seq<char>, pass: RedactionPass, env: Seq<(String, String)>) -> (
    Seq<char>,
    Seq<char>,
)
    decreases text.len(),
{
    if text.len() == 0 {
        (seq![], seq![])
    } else {
        let (out, token) = redact_state(text.drop_last(), pass, env);
        if is_ws(text.last()) {
            (out + redact_token_spec(pass, token, env) + seq![text.last()], seq![])
        } else {
            (out, token.push(text.last()))
        }
    }
}

/// Every maximal run of non-whitespace (empty runs included) rewritten by the pass; the
/// whitespace stays.
pub open spec fn redact_tokens_spec(text: Seq<char>, pass: RedactionPass, env: Seq<(String, String)>) -> Seq<
    char,
> {
    let (out, token) = redact_state(text, pass, env);
    out + redact_token_spec(pass, token, env)
}

pub fn redact_tokens(text: &Vec<char>, pass: RedactionPass, env: &Vec<(String, String)>) -> (r: Vec<char>)
    ensures
        r@ == redact_tokens_spec(text@, pass, env@),
{
    let mut out: Vec<char> = Vec::new();
    let mut token: Vec<char> = Vec::new();
    let mut i: usize = 0;
    while i < text.len()
        invariant
            i <= text.len(),
            (out@, token@) == redact_state(text@.take(i as int), pass, env@),
        decreases text.len() - i,
    {
        assert(text@.take(i + 1).drop_last() =~= text@.take(i as int));
        let c = text[i];
        if is_whitespace(c) {
            let ghost before = out@;
            append_chars(&mut out, &redact_token(pass, &token, env));
            out.push(c);
            assert(out@ =~= before + redact_token_spec(pass, token@, env@) + seq![c]);
            token = Vec::new();
        } else {
            token.push(c);
        }
        i = i + 1;
    }
    assert(text@.take(text.len() as int) =~= text@);
    append_chars(&mut out, &redact_token(pass, &token, env));
    out
}

/// Each secret-named variable's non-empty value replaced wherever it occurs, variable by
/// variable in name order.
pub open spec fn replace_env_values(text: Seq<char>, env: Seq<(String, String)>, i: int) -> Seq<char>
    decreases env.len() - i,
{
    if i < 0 || i >= env.len() {
        text
    } else {
        let next = if is_sensitive_name_spec(env[i].0@) && env[i].1@.len() > 0 {
            replace_all(text, env[i].1@, "[REDACTED]"@)
        } else {
            text
        };
        replace_env_values(next, env, i + 1)
    }
}

/// The number of bytes of `c` in UTF-8.
pub open spec fn utf8_width(c: char) -> nat {
    let v = c as u32;
    if v < 0x80 {
        1
    } else if v < 0x800 {
        2
    } else if v < 0x10000 {
        3
    } else {
        4
    }
}

/// The number of bytes of `s` in UTF-8.
pub open spec fn utf8_len(s: Seq<char>) -> nat
    decreases s.len(),
{
    if s.len() == 0 {
        0
    } else {
        utf8_len(s.drop_last()) + utf8_width(s.last())
    }
}

/// The longest prefix of `s` whose UTF-8 encoding fits in `max` bytes.
pub open spec fn fits_longest(s: Seq<char>, k: int, max: nat) -> bool {
    0 <= k <= s.len() && utf8_len(s.take(k)) <= max && (k < s.len() ==> utf8_len(s.take(k + 1)) > max)
}

pub open spec fn truncate_to_bytes_spec(s: Seq<char>, max: nat) -> Seq<char> {
    s.take(choose|k: int| fits_longest(s, k, max))
}

proof fn lemma_utf8_len_monotone(s: Seq<char>, i: int, j: int)
    requires
        0 <= i <= j <= s.len(),
    ensures
        utf8_len(s.take(i)) + (j - i) <= utf8_len(s.take(j)),
    decreases j - i,
{
    if i < j {
        lemma_utf8_len_monotone(s, i, j - 1);
        assert(s.take(j).drop_last() =~= s.take(j - 1));
    }
}

proof fn lemma_fits_unique(s: Seq<char>, k: int, max: nat)
    requires
        fits_longest(s, k, max),
    ensures
        truncate_to_bytes_spec(s, max) == s.take(k),
{
    let c = choose|c: int| fits_longest(s, c, max);
    if c < k {
        lemma_utf8_len_monotone(s, c + 1, k);
    } else if k < c {
        lemma_utf8_len_monotone(s, k + 1, c);
    }
}

fn utf8_width_exec(c: char) -> (r: usize)
    ensures
        r == utf8_width(c),
{
    let v = c as u32;
    if v < 0x80 {
        1
    } else if v < 0x800 {
        2
    } else if v < 0x10000 {
        3
    } else {
        4
    }
}

/// The longest prefix of `text` that fits in `max_bytes` bytes of UTF-8, cut at a
/// character boundary.
pub fn truncate_to_bytes(text: &Vec<char>, max_bytes: usize) -> (r: Vec<char>)
    ensures
        r@ == truncate_to_bytes_spec(text@, max_bytes as nat),
{
    let mut used: usize = 0;
    let mut k: usize = 0;
    while k < text.len() && utf8_width_exec(text[k]) <= max_bytes - used
        invariant
            k <= text.len(),
            used == utf8_len(text@.take(k as int)),
            used <= max_bytes,
        decreases text.len() - k,
    {
        let w = utf8_width_exec(text[k]);
        assert(text@.take(k + 1).drop_last() =~= text@.take(k as int));
        used = used + w;
        k = k + 1;
    }
    proof {
        if k < text.len() {
            assert(text@.take(k + 1).drop_last() =~= text@.take(k as int));
        }
        lemma_fits_unique(text@, k as int, max_bytes as nat);
    }
    crate::text::slice_of(text, 0, k)
}


/// A check environment: variable names strictly increasing in the order of `str`, each
/// name once, as in a sorted map.
pub open spec fn env_sorted(env: Seq<(String, String)>) -> bool {
    forall|i: int, j: int| 0 <= i < j < env.len() ==> lex_lt(env[i].0@, env[j].0@)
}

/// What an evaluation log keeps of a command's output: the text decoded lossily, each
/// configured secret's value and then every token that leaks part of one, names a secret
/// or looks like a credential replaced by `[REDACTED]`, cut to the output limit.
pub open spec fn sanitize_eval_log_spec(output: Seq<u8>, env: Seq<(String, String)>, max_output_bytes: nat) -> Seq<
    char,
> {
    let text = replace_env_values(utf8_lossy(output), env, 0);
    let configured = redact_tokens_spec(text, RedactionPass::ConfiguredPrefixes, env);
    let assignments = redact_tokens_spec(configured, RedactionPass::SensitiveAssignments, env);
    let standalone = redact_tokens_spec(assignments, RedactionPass::StandaloneSecrets, env);
    truncate_to_bytes_spec(standalone, max_output_bytes)
}

pub fn sanitize_eval_log(output: &[u8], env: &Vec<(String, String)>, max_output_bytes: usize) -> (r: String)
    requires
        env_sorted(env@),
    ensures
        r@ == sanitize_eval_log_spec(output@, env@, max_output_bytes as nat),
{
    let decoded = decode_lossy(output);
    let mut text = chars_of(decoded.as_str());
    let redacted = chars_of("[REDACTED]");
    let mut i: usize = 0;
    while i < env.len()
        invariant
            i <= env.len(),
            redacted@ == "[REDACTED]"@,
            replace_env_values(utf8_lossy(output@), env@, 0) == replace_env_values(text@, env@, i as int),
        decreases env.len() - i,
    {
        let name = chars_of(env[i].0.as_str());
        let value = chars_of(env[i].1.as_str());
        if is_sensitive_name(&name) && value.len() > 0 {
            text = replace_all_exec(&text, &value, &redacted);
        }
        i = i + 1;
    }
    let configured = redact_tokens(&text, RedactionPass::ConfiguredPrefixes, env);
    let assignments = redact_tokens(&configured, RedactionPass::SensitiveAssignments, env);
    let standalone = redact_tokens(&assignments, RedactionPass::StandaloneSecrets, env);
    string_of(&truncate_to_bytes(&standalone, max_output_bytes))
}

/// Whether a check passed.
#[derive(Debug, Clone, Copy, PartialEq, Eq, Structural)]
pub enum CheckStatus {
    Passed,
    Failed,
}

/// The decimal spelling of a signed exit code.
pub open spec fn signed_decimal(v: int) -> Seq<char> {
    if v < 0 {
        "-"@ + decimal((-v) as nat)
    } else {
        decimal(v as nat)
    }
}

/// The summary line of a finished command: its timeout, its exit code, or its signal.
pub open spec fn check_summary_spec(timed_out: bool, exit_code: Option<i32>, timeout_ms: u64) -> Seq<char> {
    if timed_out {
        "command timed out after "@ + decimal(timeout_ms as nat) + "ms"@
    } else {
        match exit_code {
            Some(code) => "command exited with code "@ + signed_decimal(code as int),
            None => "command terminated by signal"@,
        }
    }
}

/// The status and summary of a finished command: it passed when it neither timed out
/// nor exited unsuccessfully.
pub fn check_outcome(timed_out: bool, exit_code: Option<i32>, success: bool, timeout_ms: u64) -> (r: (
    CheckStatus,
    String,
))
    ensures
        r.0 == (if !timed_out && success {
            CheckStatus::Passed
        } else {
            CheckStatus::Failed
        }),
        r.1@ == check_summary_spec(timed_out, exit_code, timeout_ms),
{
    let summary = if timed_out {
        let mut m = chars_of("command timed out after ");
        append_chars(&mut m, &decimal_exec(timeout_ms));
        append_chars(&mut m, &chars_of("ms"));
        m
    } else {
        match exit_code {
            Some(code) => {
                let mut m = chars_of("command exited with code ");
                if code < 0 {
                    m.push('-');
                    let magnitude: u64 = (0 - (code as i64)) as u64;
                    let ghost before = m@;
                    append_chars(&mut m, &decimal_exec(magnitude));
                    proof {
                        reveal_strlit("-");
                        assert(magnitude as int == -(code as int));
                        assert("-"@ =~= seq!['-']);
                        assert(before =~= "command exited with code "@ + "-"@);
                    }
                    assert(m@ =~= "command exited with code "@ + signed_decimal(code as int));
                } else {
                    append_chars(&mut m, &decimal_exec(code as u64));
                }
                m
            },
            None => chars_of("command terminated by signal"),
        }
    };
    let status = if !timed_out && success {
        CheckStatus::Passed
    } else {
        CheckStatus::Failed
    };
    (status, string_of(&summary))
}


proof fn lemma_fits_exists_from(s: Seq<char>, max: nat, k: int)
    requires
        0 <= k <= s.len(),
        utf8_len(s.take(k)) <= max,
    ensures
        exists|c: int| fits_longest(s, c, max),
    decreases s.len() - k,
{
    if k < s.len() && utf8_len(s.take(k + 1)) <= max {
        lemma_fits_exists_from(s, max, k + 1);
    } else {
        assert(fits_longest(s, k, max));
    }
}

/// A sanitized evaluation log never holds more than the check's output limit in UTF-8.
pub proof fn lemma_sanitized_log_fits_limit(output: Seq<u8>, env: Seq<(String, String)>, max_output_bytes: nat)
    ensures
        utf8_len(sanitize_eval_log_spec(output, env, max_output_bytes)) <= max_output_bytes,
{
    let text = replace_env_values(utf8_lossy(output), env, 0);
    let configured = redact_tokens_spec(text, RedactionPass::ConfiguredPrefixes, env);
    let assignments = redact_tokens_spec(configured, RedactionPass::SensitiveAssignments, env);
    let standalone = redact_tokens_spec(assignments, RedactionPass::StandaloneSecrets, env);
    assert(standalone.take(0) =~= Seq::<char>::empty());
    lemma_fits_exists_from(standalone, max_output_bytes, 0);
}


/// A control character: Unicode general category Cc.
pub open spec fn is_control(c: char) -> bool {
    (c as u32) <= 0x1f || (0x7f <= (c as u32) && (c as u32) <= 0x9f)
}

pub open spec fn allowed_text_char(c: char) -> bool {
    c == '\n' || c == '\r' || c == '\t' || !is_control(c)
}

/// The first 512 bytes of a file, or all of it.
pub open spec fn text_sample(bytes: Seq<u8>) -> Seq<u8> {
    bytes.take(
        if bytes.len() < 512 {
            bytes.len() as int
        } else {
            512
        },
    )
}

/// Whether an executable without a shebang looks like text: it is empty, or its sample
/// is UTF-8 holding no control character but newline, carriage return and tab.
pub open spec fn looks_like_text_spec(bytes: Seq<u8>) -> bool {
    bytes.len() == 0 || (vstd::utf8::valid_utf8(text_sample(bytes)) && forall|i: int|
        0 <= i < vstd::utf8::decode_utf8(text_sample(bytes)).len() ==> allowed_text_char(
            #[trigger] vstd::utf8::decode_utf8(text_sample(bytes))[i],
        ))
}

/// `std::str::from_utf8`: the text that the bytes are, where they are UTF-8. The contract
/// says that it succeeds exactly on valid UTF-8 and then decodes it.
#[verifier::external_body]
fn utf8_text(bytes: &[u8]) -> (r: Option<String>)
    ensures
        r is Some <==> vstd::utf8::valid_utf8(bytes@),
        r matches Some(t) ==> t@ == vstd::utf8::decode_utf8(bytes@),
{
    std::str::from_utf8(bytes).ok().map(|text| text.to_string())
}

/// Whether an executable that lacks a shebang is text, which cannot be spawned.
pub fn looks_like_text_without_shebang(bytes: &[u8]) -> (r: bool)
    ensures
        r == looks_like_text_spec(bytes@),
{
    if bytes.len() == 0 {
        return true;
    }
    let n = if bytes.len() < 512 {
        bytes.len()
    } else {
        512
    };
    let mut sample: Vec<u8> = Vec::new();
    let mut i: usize = 0;
    while i < n
        invariant
            i <= n <= bytes.len(),
            sample@ == bytes@.take(i as int),
        decreases n - i,
    {
        sample.push(bytes[i]);
        assert(bytes@.take(i + 1) =~= bytes@.take(i as int).push(bytes@[i as int]));
        i = i + 1;
    }
    assert(sample@ =~= text_sample(bytes@));
    match utf8_text(sample.as_slice()) {
        None => false,
        Some(text) => {
            let chars = chars_of(text.as_str());
            let mut k: usize = 0;
            while k < chars.len()
                invariant
                    k <= chars.len(),
                    chars@ == vstd::utf8::decode_utf8(text_sample(bytes@)),
                    forall|j: int| 0 <= j < k ==> allowed_text_char(#[trigger] chars@[j]),
                decreases chars.len() - k,
            {
                let c = chars[k];
                let code = c as u32;
                if !(c == '\n' || c == '\r' || c == '\t' || !(code <= 0x1f || (0x7f <= code && code <= 0x9f))) {
                    assert(!allowed_text_char(chars@[k as int]));
                    return false;
                }
                k = k + 1;
            }
            true
        },
    }
}

/// The position of the first newline at or after `i`, or the length.
pub open spec fn newline_from(bytes: Seq<u8>, i: int) -> int
    decreases bytes.len() - i,
{
    if i < 0 || i >= bytes.len() {
        bytes.len() as int
    } else if bytes[i] == 10u8 {
        i
    } else {
        newline_from(bytes, i + 1)
    }
}

pub open spec fn starts_with_shebang(bytes: Seq<u8>) -> bool {
    bytes.len() >= 2 && bytes[0] == 35u8 && bytes[1] == 33u8
}

/// The words of a script's shebang line (after `#!`, up to the first newline, decoded
/// lossily), where the bytes start with `#!`.
pub open spec fn shebang_words_spec(bytes: Seq<u8>) -> Option<Seq<Seq<char>>> {
    if starts_with_shebang(bytes) {
        Some(words(utf8_lossy(bytes.subrange(2, newline_from(bytes, 0)))))
    } else {
        None
    }
}

proof fn lemma_newline_bounds(bytes: Seq<u8>, i: int)
    requires
        0 <= i <= bytes.len(),
    ensures
        i <= newline_from(bytes, i) <= bytes.len(),
    decreases bytes.len() - i,
{
    if i < bytes.len() && bytes[i] != 10u8 {
        lemma_newline_bounds(bytes, i + 1);
    }
}

/// The words of an executable's shebang line, where it has one.
pub fn shebang_words(bytes: &[u8]) -> (r: Option<Vec<String>>)
    ensures
        match shebang_words_spec(bytes@) {
            Some(w) => r matches Some(v) && strings_view(v@) == w,
            None => r is None,
        },
{
    if !(bytes.len() >= 2 && bytes[0] == 35u8 && bytes[1] == 33u8) {
        return None;
    }
    let mut end: usize = 0;
    while end < bytes.len() && bytes[end] != 10u8
        invariant
            end <= bytes.len(),
            newline_from(bytes@, 0) == newline_from(bytes@, end as int),
        decreases bytes.len() - end,
    {
        end = end + 1;
    }
    proof {
        lemma_newline_bounds(bytes@, 0);
    }
    let mut line: Vec<u8> = Vec::new();
    let mut i: usize = 2;
    while i < end
        invariant
            2 <= i <= end <= bytes.len(),
            end as int == newline_from(bytes@, 0),
            line@ == bytes@.subrange(2, i as int),
        decreases end - i,
    {
        line.push(bytes[i]);
        assert(bytes@.subrange(2, i + 1) =~= bytes@.subrange(2, i as int).push(bytes@[i as int]));
        i = i + 1;
    }
    let text = decode_lossy(line.as_slice());
    Some(words_exec(&chars_of(text.as_str())))
}

} // verus!
