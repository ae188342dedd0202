//! The guard over operator-supplied evidence: no byte string that reaches durable
//! evidence may contain a configured secret.
use vstd::prelude::*;

use crate::eval_engine::{is_sensitive_name, is_sensitive_name_spec};
use crate::text::{chars_of, string_of};

verus! {

/// The one refusal that operator evidence gets, whatever secret it held.
pub const OPERATOR_EVIDENCE_ERROR: &'static str = "operator evidence contains prohibited credential material";

pub open spec fn operator_evidence_error() -> Seq<char> {
    "operator evidence contains prohibited credential material"@
}

/// Whether `needle` occurs in `hay` at `at`.
pub open spec fn bytes_at(hay: Seq<u8>, needle: Seq<u8>, at: int) -> bool {
    0 <= at && at + needle.len() <= hay.len() && hay.subrange(at, at + needle.len()) == needle
}

/// Whether `needle` occurs anywhere in `hay`.
pub open spec fn contains_bytes(hay: Seq<u8>, needle: Seq<u8>) -> bool {
    exists|at: int| bytes_at(hay, needle, at)
}

/// The UTF-8 bytes of the non-empty values of secret-named variables, map by map, in
/// each map's order.
pub open spec fn env_secrets(env: Seq<(String, String)>) -> Seq<Seq<u8>>
    decreases env.len(),
{
    if env.len() == 0 {
        seq![]
    } else {
        let rest = env_secrets(env.drop_last());
        let (name, value) = env.last();
        if is_sensitive_name_spec(name@) && value@.len() > 0 {
            rest.push(vstd::utf8::encode_utf8(value@))
        } else {
            rest
        }
    }
}

pub open spec fn maps_secrets(maps: Seq<Vec<(String, String)>>) -> Seq<Seq<u8>>
    decreases maps.len(),
{
    if maps.len() == 0 {
        seq![]
    } else {
        maps_secrets(maps.drop_last()) + env_secrets(maps.last()@)
    }
}

/// The secrets that evidence must not hold.
pub struct SecretRedactor {
    secrets: Vec<Vec<u8>>,
}

impl View for SecretRedactor {
    type V = Seq<Seq<u8>>;

    closed spec fn view(&self) -> Seq<Seq<u8>> {
        self.secrets@.map_values(|s: Vec<u8>| s@)
    }
}

fn bytes_of(s: &str) -> (r: Vec<u8>)
    ensures
        r@ == vstd::utf8::encode_utf8(s@),
{
    let b = s.as_bytes();
    let mut r: Vec<u8> = Vec::new();
    let mut i: usize = 0;
    while i < b.len()
        invariant
            i <= b.len(),
            b@ == vstd::utf8::encode_utf8(s@),
            r@ == b@.take(i as int),
        decreases b.len() - i,
    {
        r.push(b[i]);
        assert(b@.take(i + 1) =~= b@.take(i as int).push(b@[i as int]));
        i = i + 1;
    }
    assert(b@.take(b.len() as int) =~= b@);
    r
}

fn bytes_at_exec(hay: &[u8], needle: &Vec<u8>, at: usize) -> (r: bool)
    ensures
        r == bytes_at(hay@, needle@, at as int),
{
    if at > hay.len() || needle.len() > hay.len() - at {
        return false;
    }
    let mut i: usize = 0;
    while i < needle.len()
        invariant
            at + needle.len() <= hay.len(),
            i <= needle.len(),
            forall|j: int| 0 <= j < i ==> hay@[at + j] == needle@[j],
        decreases needle.len() - i,
    {
        if hay[at + i] != needle[i] {
            assert(hay@.subrange(at as int, at + needle.len())[i as int] != needle@[i as int]);
            return false;
        }
        i = i + 1;
    }
    assert(hay@.subrange(at as int, at + needle.len()) =~= needle@);
    true
}

fn contains_bytes_exec(hay: &[u8], needle: &Vec<u8>) -> (r: bool)
    ensures
        r == contains_bytes(hay@, needle@),
{
    if needle.len() > hay.len() {
        return false;
    }
    let last = hay.len() - needle.len();
    let mut at: usize = 0;
    loop
        invariant
            needle.len() <= hay.len(),
            last == hay.len() - needle.len(),
            at <= last,
            forall|j: int| 0 <= j < at ==> !bytes_at(hay@, needle@, j),
        decreases last - at,
    {
        if bytes_at_exec(hay, needle, at) {
            return true;
        }
        if at == last {
            assert forall|j: int| !bytes_at(hay@, needle@, j) by {
                if 0 <= j && j + needle@.len() <= hay@.len() {
                    assert(j <= at);
                }
            }
            return false;
        }
        at = at + 1;
    }
}

impl SecretRedactor {
    /// The redactor of the variables of the given environments.
    pub fn from_env_maps(maps: &[Vec<(String, String)>]) -> (r: Self)
        ensures
            r@ == maps_secrets(maps@),
    {
        let mut secrets: Vec<Vec<u8>> = Vec::new();
        let mut m: usize = 0;
        while m < maps.len()
            invariant
                m <= maps.len(),
                secrets@.map_values(|s: Vec<u8>| s@) == maps_secrets(maps@.take(m as int)),
            decreases maps.len() - m,
        {
            assert(maps@.take(m + 1).drop_last() =~= maps@.take(m as int));
            let env = &maps[m];
            let ghost base = secrets@.map_values(|s: Vec<u8>| s@);
            let mut i: usize = 0;
            assert(env@.take(0) =~= Seq::<(String, String)>::empty());
            assert(base + env_secrets(env@.take(0)) =~= base);
            while i < env.len()
                invariant
                    i <= env.len(),
                    secrets@.map_values(|s: Vec<u8>| s@) == base + env_secrets(env@.take(i as int)),
                decreases env.len() - i,
            {
                assert(env@.take(i + 1).drop_last() =~= env@.take(i as int));
                let name = chars_of(env[i].0.as_str());
                if is_sensitive_name(&name) && !env[i].1.as_str().is_empty() {
                    let ghost before = secrets@.map_values(|s: Vec<u8>| s@);
                    let secret = bytes_of(env[i].1.as_str());
                    secrets.push(secret);
                    assert(env@.take(i + 1).last() == env@[i as int]);
                    assert(secrets@.map_values(|s: Vec<u8>| s@) =~= before.push(
                        vstd::utf8::encode_utf8(env@[i as int].1@),
                    ));
                    assert(env@[i as int].1@.len() > 0);
                } else {
                    assert(env@.take(i + 1).last() == env@[i as int]);
                    assert(!(is_sensitive_name_spec(env@[i as int].0@) && env@[i as int].1@.len() > 0));
                }
                i = i + 1;
            }
            assert(env@.take(env.len() as int) =~= env@);
            assert(maps@.take(m + 1).last() == maps@[m as int]);
            m = m + 1;
        }
        assert(maps@.take(maps.len() as int) =~= maps@);
        SecretRedactor { secrets }
    }

    /// Whether the bytes hold any secret.
    pub fn contains_prohibited_bytes(&self, bytes: &[u8]) -> (r: bool)
        ensures
            r == exists|i: int| 0 <= i < self@.len() && contains_bytes(bytes@, #[trigger] self@[i]),
    {
        let mut i: usize = 0;
        while i < self.secrets.len()
            invariant
                i <= self.secrets.len(),
                forall|j: int| 0 <= j < i ==> !contains_bytes(bytes@, #[trigger] self@[j]),
            decreases self.secrets.len() - i,
        {
            if contains_bytes_exec(bytes, &self.secrets[i]) {
                assert(contains_bytes(bytes@, self@[i as int]));
                return true;
            }
            i = i + 1;
        }
        false
    }
}

/// Whether evidence bytes hold a secret of the redactor.
pub open spec fn prohibited(secrets: Seq<Seq<u8>>, bytes: Seq<u8>) -> bool {
    exists|i: int| 0 <= i < secrets.len() && contains_bytes(bytes, #[trigger] secrets[i])
}

/// Checks operator evidence against the run's configured secrets.
pub struct OperatorEvidenceGuard {
    redactor: SecretRedactor,
}

impl OperatorEvidenceGuard {
    pub closed spec fn secrets(&self) -> Seq<Seq<u8>> {
        self.redactor@
    }

    pub fn new(redactor: SecretRedactor) -> (r: Self)
        ensures
            r.secrets() == redactor@,
    {
        OperatorEvidenceGuard { redactor }
    }

    /// Refuses bytes that hold a secret anywhere, even across a redaction marker.
    pub fn validate_exact_raw_bytes(&self, bytes: &[u8]) -> (r: Result<(), String>)
        ensures
            r is Ok <==> !prohibited(self.secrets(), bytes@),
            r is Err ==> r->Err_0@ == operator_evidence_error(),
    {
        if self.redactor.contains_prohibited_bytes(bytes) {
            Err(string_of(&chars_of("operator evidence contains prohibited credential material")))
        } else {
            Ok(())
        }
    }

    /// Refuses a structural string (an actor, an approver) that holds a secret.
    pub fn validate_structural(&self, value: &str) -> (r: Result<(), String>)
        ensures
            r is Ok <==> !prohibited(self.secrets(), vstd::utf8::encode_utf8(value@)),
            r is Err ==> r->Err_0@ == operator_evidence_error(),
    {
        self.validate_exact_raw_bytes(value.as_bytes())
    }

    /// Refuses a recovery whose actor or reason holds a secret.
    pub fn validate_recovery_fields(&self, actor: &str, reason: &str) -> (r: Result<(), String>)
        ensures
            r is Ok <==> !prohibited(self.secrets(), vstd::utf8::encode_utf8(actor@)) && !prohibited(
                self.secrets(),
                vstd::utf8::encode_utf8(reason@),
            ),
            r is Err ==> r->Err_0@ == operator_evidence_error(),
    {
        self.validate_structural(actor)?;
        self.validate_exact_raw_bytes(reason.as_bytes())
    }

    /// Refuses a run whose approver or promoter holds a secret.
    pub fn validate_run(&self, approver: Option<&str>, promoter: Option<&str>) -> (r: Result<
        (),
        String,
    >)
        ensures
            r is Ok <==> (match approver {
                Some(a) => !prohibited(self.secrets(), vstd::utf8::encode_utf8(a@)),
                None => true,
            }) && (match promoter {
                Some(p) => !prohibited(self.secrets(), vstd::utf8::encode_utf8(p@)),
                None => true,
            }),
            r is Err ==> r->Err_0@ == operator_evidence_error(),
    {
        match approver {
            Some(a) => self.validate_structural(a)?,
            None => {},
        }
        match promoter {
            Some(p) => self.validate_structural(p)?,
            None => {},
        }
        Ok(())
    }
}

} // verus!
