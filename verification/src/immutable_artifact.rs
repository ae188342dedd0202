//! The path rule of immutable run artifacts and the errors of their storage.
use vstd::prelude::*;

use crate::policy::{seq_views, split_char, split_char_exec};
use crate::text::{append_chars, chars_of, seq_eq, string_of};

verus! {

/// Why an immutable artifact could not be read or published.
#[derive(Debug, Clone, PartialEq, Eq)]
pub enum ImmutableArtifactError {
    Safety(String),
    Collision(String),
    Io(String),
}

impl ImmutableArtifactError {
    pub open spec fn display(&self) -> Seq<char> {
        match self {
            ImmutableArtifactError::Safety(m) => "immutable artifact safety error: "@ + m@,
            ImmutableArtifactError::Collision(m) => "immutable artifact collision: "@ + m@,
            ImmutableArtifactError::Io(m) => "immutable artifact I/O error: "@ + m@,
        }
    }

    /// The message, as the error displays.
    pub fn to_string(&self) -> (r: String)
        ensures
            r@ == self.display(),
    {
        let (prefix, message) = match self {
            ImmutableArtifactError::Safety(m) => ("immutable artifact safety error: ", m),
            ImmutableArtifactError::Collision(m) => ("immutable artifact collision: ", m),
            ImmutableArtifactError::Io(m) => ("immutable artifact I/O error: ", m),
        };
        let mut text = chars_of(prefix);
        append_chars(&mut text, &chars_of(message.as_str()));
        string_of(&text)
    }
}

/// A relative path all of whose components are plain names, as `Path::components`
/// parses it on Unix: not empty, not rooted, not beginning with a `.` component, and
/// without a `..` component anywhere. Empty segments and a `.` after the first segment
/// are no components at all.
pub open spec fn is_safe_relative_path(path: Seq<char>) -> bool {
    let segments = split_char(path, '/');
    &&& path.len() > 0
    &&& path[0] != '/'
    &&& segments[0] != "."@
    &&& forall|i: int| 0 <= i < segments.len() ==> segments[i] != ".."@
}

/// Refuses an artifact reference that is not a safe relative path.
pub fn validate_relative_path(path: &str) -> (r: Result<(), ImmutableArtifactError>)
    ensures
        is_safe_relative_path(path@) ==> r is Ok,
        !is_safe_relative_path(path@) ==> (r matches Err(ImmutableArtifactError::Safety(m)) && m@
            == "artifact reference is not a safe relative path"@),
{
    let chars = chars_of(path);
    let segments = split_char_exec(&chars, '/');
    let dot = chars_of(".");
    let dotdot = chars_of("..");
    assert(split_char(path@, '/').len() > 0);
    assert(seq_views(segments@)[0] == segments@[0]@);
    let mut safe = chars.len() > 0 && chars[0] != '/' && !seq_eq(&segments[0], &dot);
    let mut i: usize = 0;
    while i < segments.len()
        invariant
            i <= segments.len(),
            dotdot@ == ".."@,
            dot@ == "."@,
            chars@ == path@,
            seq_views(segments@) == split_char(path@, '/'),
            safe == (path@.len() > 0 && path@[0] != '/' && split_char(path@, '/')[0] != "."@ && forall|j: int|
                0 <= j < i ==> split_char(path@, '/')[j] != ".."@),
        decreases segments.len() - i,
    {
        assert(seq_views(segments@)[i as int] == segments@[i as int]@);
        if seq_eq(&segments[i], &dotdot) {
            safe = false;
        }
        i = i + 1;
    }
    if !safe {
        return Err(
            ImmutableArtifactError::Safety(string_of(&chars_of("artifact reference is not a safe relative path"))),
        );
    }
    Ok(())
}

} // verus!
