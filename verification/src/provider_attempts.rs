//! The provider attempts of a run as inspection reports them: the authoritative exchange
//! records grouped into step attempts, bounded, with every gap and damaged record named.
use vstd::prelude::*;

use crate::inspect::{EvidenceClassification, InspectError, MAX_PROVIDER_ATTEMPTS, MAX_PROVIDER_EXCHANGES_PER_ATTEMPT};
use crate::inspect_steps::raise_maximum;
use crate::number::{decimal, decimal_exec};
use crate::text::{append_chars, chars_of, contains_seq, contains_seq_exec, opt_view, seq_eq, string_of, string_seq};

verus! {

/// A failure to load or validate provider exchange records, as inspection reads it: the
/// message of an artifact failure (where it is one), whether it is an I/O failure for a
/// missing file, and how the failure displays.
#[derive(Debug, Clone, PartialEq, Eq)]
pub struct ProviderErrorSummary {
    pub artifact_message: Option<String>,
    pub io_not_found: bool,
    pub display: String,
}

/// How inspection classifies a provider record failure: uninspectable or not found is
/// missing evidence; an artifact failure about safety, regular files or symlinks refuses
/// the inspection; anything else is tampered evidence.
pub open spec fn provider_error_class(e: ProviderErrorSummary) -> Result<EvidenceClassification, Seq<char>> {
    match e.artifact_message {
        Some(m) => if contains_seq(m@, "could not be inspected"@) {
            Ok(EvidenceClassification::Missing)
        } else if contains_seq(m@, "safety"@) || contains_seq(m@, "regular file"@) || contains_seq(
            m@,
            "symlink"@,
        ) {
            Err(e.display@)
        } else {
            Ok(EvidenceClassification::Tampered)
        },
        None => if e.io_not_found {
            Ok(EvidenceClassification::Missing)
        } else {
            Ok(EvidenceClassification::Tampered)
        },
    }
}

pub fn classify_provider_error(error: &ProviderErrorSummary) -> (r: Result<EvidenceClassification, InspectError>)
    ensures
        match provider_error_class(*error) {
            Ok(c) => r == Ok::<EvidenceClassification, InspectError>(c),
            Err(m) => r matches Err(InspectError::Safety(s)) && s@ == m,
        },
{
    match &error.artifact_message {
        Some(m) => {
            let mc = chars_of(m.as_str());
            if contains_seq_exec(&mc, &chars_of("could not be inspected")) {
                Ok(EvidenceClassification::Missing)
            } else if contains_seq_exec(&mc, &chars_of("safety")) || contains_seq_exec(&mc, &chars_of("regular file"))
                || contains_seq_exec(&mc, &chars_of("symlink")) {
                Err(InspectError::Safety(error.display.clone()))
            } else {
                Ok(EvidenceClassification::Tampered)
            }
        },
        None => if error.io_not_found {
            Ok(EvidenceClassification::Missing)
        } else {
            Ok(EvidenceClassification::Tampered)
        },
    }
}

/// A reference to one authoritative provider exchange record, as the run lists it. The
/// step is its index in the loop's step order; role, kind and phase are held by name.
#[derive(Debug, Clone, PartialEq, Eq)]
pub struct ProviderRecordReference {
    pub run_id: String,
    pub step: usize,
    pub role: String,
    pub step_attempt: u32,
    pub exchange_index: u32,
    pub kind: String,
    pub context_round: Option<u32>,
    pub phase: String,
    pub path: String,
    pub digest: String,
}

/// What loading one referenced exchange record gave: its outcome (by name, where it has
/// one), or that it is missing or tampered, or a refusal that ends the inspection.
#[derive(Debug, Clone, PartialEq, Eq)]
pub enum RecordLoad {
    Loaded(Option<String>),
    Missing,
    Tampered,
    Refused(String),
}

/// What validating the whole authoritative record chain gave.
#[derive(Debug, Clone, PartialEq, Eq)]
pub enum ChainCheck {
    Sound,
    Missing,
    Tampered,
    Refused(String),
}

#[derive(Debug, Clone, PartialEq, Eq)]
pub struct ProviderExchangeInspection {
    pub exchange_index: u32,
    pub kind: String,
    pub phase: String,
    pub outcome: Option<String>,
    pub ledger_head: bool,
    pub verification: EvidenceClassification,
}

#[derive(Debug, Clone, PartialEq, Eq)]
pub struct ProviderAttemptInspection {
    pub step: usize,
    pub attempt: u32,
    pub exchanges: Vec<ProviderExchangeInspection>,
}

/// The provider attempts kept, how many attempts and exchanges there are in all, and the
/// highest attempt of each step.
#[derive(Debug, Clone, PartialEq, Eq)]
pub struct ProviderAttemptsInventory {
    pub attempts: Vec<ProviderAttemptInspection>,
    pub attempts_total: usize,
    pub exchanges_total: usize,
    pub maxima: Vec<Option<u32>>,
}

pub struct ReferenceView {
    pub run_id: Seq<char>,
    pub step: usize,
    pub role: Seq<char>,
    pub step_attempt: u32,
    pub exchange_index: u32,
    pub kind: Seq<char>,
    pub context_round: Option<u32>,
    pub phase: Seq<char>,
    pub path: Seq<char>,
    pub digest: Seq<char>,
}

pub open spec fn reference_view(r: ProviderRecordReference) -> ReferenceView {
    ReferenceView {
        run_id: r.run_id@,
        step: r.step,
        role: r.role@,
        step_attempt: r.step_attempt,
        exchange_index: r.exchange_index,
        kind: r.kind@,
        context_round: r.context_round,
        phase: r.phase@,
        path: r.path@,
        digest: r.digest@,
    }
}

pub struct ExchangeView {
    pub exchange_index: u32,
    pub kind: Seq<char>,
    pub phase: Seq<char>,
    pub outcome: Option<Seq<char>>,
    pub ledger_head: bool,
    pub verification: EvidenceClassification,
}

pub struct AttemptView {
    pub step: usize,
    pub attempt: u32,
    pub exchanges: Seq<ExchangeView>,
}

pub open spec fn exchange_view(e: ProviderExchangeInspection) -> ExchangeView {
    ExchangeView {
        exchange_index: e.exchange_index,
        kind: e.kind@,
        phase: e.phase@,
        outcome: opt_view(e.outcome),
        ledger_head: e.ledger_head,
        verification: e.verification,
    }
}

pub open spec fn exchanges_view(v: Seq<ProviderExchangeInspection>) -> Seq<ExchangeView> {
    v.map_values(|e: ProviderExchangeInspection| exchange_view(e))
}

pub open spec fn attempt_view(a: ProviderAttemptInspection) -> AttemptView {
    AttemptView { step: a.step, attempt: a.attempt, exchanges: exchanges_view(a.exchanges@) }
}

pub open spec fn attempts_view(v: Seq<ProviderAttemptInspection>) -> Seq<AttemptView> {
    v.map_values(|a: ProviderAttemptInspection| attempt_view(a))
}

/// The state of the walk over the records: the attempts kept, the totals, per step the
/// previous and the highest attempt, the group being read, the messages so far, and the
/// refusal that ended the walk, if one did.
pub struct ProviderWalk {
    pub attempts: Seq<AttemptView>,
    pub attempts_total: nat,
    pub exchanges_total: nat,
    pub previous: Seq<Option<u32>>,
    pub maxima: Seq<Option<u32>>,
    pub current: Option<(usize, u32)>,
    pub messages: Seq<Seq<char>>,
    pub refused: Option<Seq<char>>,
}

pub open spec fn chain_class(chain: ChainCheck) -> EvidenceClassification {
    match chain {
        ChainCheck::Sound => EvidenceClassification::Verified,
        ChainCheck::Missing => EvidenceClassification::Missing,
        _ => EvidenceClassification::Tampered,
    }
}

pub open spec fn gap_message(step_name: Seq<char>, attempt: u32) -> Seq<char> {
    "provider attempt sequence for "@ + step_name + " has a factual gap before "@ + decimal(attempt as nat)
}

/// Whether an attempt does not follow the step's previous one (the first must be 1).
pub open spec fn attempt_gap(previous: Option<u32>, attempt: u32) -> bool {
    match previous {
        None => attempt != 1,
        Some(v) => v + 1 != attempt,
    }
}

pub open spec fn record_message(path: Seq<char>, missing: bool) -> Seq<char> {
    "provider ledger record "@ + path + if missing {
        " is missing"@
    } else {
        " is tampered"@
    }
}

/// The walk opens the group of the record at `i` where it starts a new group.
pub open spec fn open_group(
    s: ProviderWalk,
    refs: Seq<ProviderRecordReference>,
    names: Seq<Seq<char>>,
    i: int,
) -> ProviderWalk {
    let r = refs[i];
    let head = refs.last();
    if s.current == Some((r.step, r.step_attempt)) {
        s
    } else {
        let fresh = AttemptView { step: r.step, attempt: r.step_attempt, exchanges: seq![] };
        ProviderWalk {
            attempts: if s.attempts.len() < MAX_PROVIDER_ATTEMPTS {
                s.attempts.push(fresh)
            } else if r.step == head.step && r.step_attempt == head.step_attempt {
                s.attempts.drop_last().push(fresh)
            } else {
                s.attempts
            },
            attempts_total: s.attempts_total + 1,
            exchanges_total: s.exchanges_total,
            previous: s.previous.update(r.step as int, Some(r.step_attempt)),
            maxima: s.maxima.update(r.step as int, raise_maximum(s.maxima[r.step as int], r.step_attempt)),
            current: Some((r.step, r.step_attempt)),
            messages: if attempt_gap(s.previous[r.step as int], r.step_attempt) {
                s.messages.push(gap_message(names[r.step as int], r.step_attempt))
            } else {
                s.messages
            },
            refused: None,
        }
    }
}

/// The walk reads the record at `i` into the last kept attempt where it belongs there.
pub open spec fn read_record(
    s: ProviderWalk,
    refs: Seq<ProviderRecordReference>,
    loads: Seq<RecordLoad>,
    chain: EvidenceClassification,
    i: int,
) -> ProviderWalk {
    let r = refs[i];
    let counted = ProviderWalk { exchanges_total: s.exchanges_total + 1, ..s };
    if s.attempts.len() > 0 && s.attempts.last().step == r.step && s.attempts.last().attempt == r.step_attempt {
        match loads[i] {
            RecordLoad::Refused(e) => ProviderWalk { refused: Some(e@), ..counted },
            RecordLoad::Loaded(o) => append_exchange(counted, refs, i, opt_view(o), chain, counted.messages),
            RecordLoad::Missing => append_exchange(
                counted,
                refs,
                i,
                None,
                EvidenceClassification::Missing,
                counted.messages.push(record_message(r.path@, true)),
            ),
            RecordLoad::Tampered => append_exchange(
                counted,
                refs,
                i,
                None,
                EvidenceClassification::Tampered,
                counted.messages.push(record_message(r.path@, false)),
            ),
        }
    } else {
        counted
    }
}

pub open spec fn append_exchange(
    s: ProviderWalk,
    refs: Seq<ProviderRecordReference>,
    i: int,
    outcome: Option<Seq<char>>,
    verification: EvidenceClassification,
    messages: Seq<Seq<char>>,
) -> ProviderWalk {
    let r = refs[i];
    let e = ExchangeView {
        exchange_index: r.exchange_index,
        kind: r.kind@,
        phase: r.phase@,
        outcome,
        ledger_head: reference_view(r) == reference_view(refs.last()),
        verification,
    };
    let last = s.attempts.last();
    let exchanges = if last.exchanges.len() < MAX_PROVIDER_EXCHANGES_PER_ATTEMPT {
        last.exchanges.push(e)
    } else {
        last.exchanges.update(last.exchanges.len() - 1, e)
    };
    ProviderWalk {
        attempts: s.attempts.update(s.attempts.len() - 1, AttemptView { exchanges, ..last }),
        messages,
        ..s
    }
}

/// The walk over the first `n` records.
pub open spec fn provider_walk(
    refs: Seq<ProviderRecordReference>,
    loads: Seq<RecordLoad>,
    chain: EvidenceClassification,
    names: Seq<Seq<char>>,
    n: nat,
) -> ProviderWalk
    decreases n,
{
    if n == 0 {
        ProviderWalk {
            attempts: seq![],
            attempts_total: 0,
            exchanges_total: 0,
            previous: Seq::new(names.len(), |k: int| None::<u32>),
            maxima: Seq::new(names.len(), |k: int| None::<u32>),
            current: None,
            messages: seq![],
            refused: None,
        }
    } else {
        let s = provider_walk(refs, loads, chain, names, (n - 1) as nat);
        if s.refused is Some {
            s
        } else {
            read_record(open_group(s, refs, names, n - 1), refs, loads, chain, n - 1)
        }
    }
}


fn same_reference(a: &ProviderRecordReference, b: &ProviderRecordReference) -> (r: bool)
    ensures
        r == (reference_view(*a) == reference_view(*b)),
{
    let text_equal = seq_eq(&chars_of(a.run_id.as_str()), &chars_of(b.run_id.as_str())) && seq_eq(
        &chars_of(a.role.as_str()),
        &chars_of(b.role.as_str()),
    ) && seq_eq(&chars_of(a.kind.as_str()), &chars_of(b.kind.as_str())) && seq_eq(
        &chars_of(a.phase.as_str()),
        &chars_of(b.phase.as_str()),
    ) && seq_eq(&chars_of(a.path.as_str()), &chars_of(b.path.as_str())) && seq_eq(
        &chars_of(a.digest.as_str()),
        &chars_of(b.digest.as_str()),
    );
    let round_equal = match (a.context_round, b.context_round) {
        (Some(x), Some(y)) => x == y,
        (None, None) => true,
        _ => false,
    };
    text_equal && round_equal && a.step == b.step && a.step_attempt == b.step_attempt && a.exchange_index
        == b.exchange_index
}

fn clone_text(o: &Option<String>) -> (r: Option<String>)
    ensures
        opt_view(r) == opt_view(*o),
{
    match o {
        Some(t) => Some(t.clone()),
        None => None,
    }
}

fn gap_message_exec(step_name: &String, attempt: u32) -> (r: String)
    ensures
        r@ == gap_message(step_name@, attempt),
{
    let mut m = chars_of("provider attempt sequence for ");
    append_chars(&mut m, &chars_of(step_name.as_str()));
    append_chars(&mut m, &chars_of(" has a factual gap before "));
    append_chars(&mut m, &decimal_exec(attempt as u64));
    string_of(&m)
}

fn record_message_exec(path: &String, missing: bool) -> (r: String)
    ensures
        r@ == record_message(path@, missing),
{
    let mut m = chars_of("provider ledger record ");
    append_chars(&mut m, &chars_of(path.as_str()));
    if missing {
        append_chars(&mut m, &chars_of(" is missing"));
    } else {
        append_chars(&mut m, &chars_of(" is tampered"));
    }
    string_of(&m)
}

/// The provider attempts of a run: its authoritative exchange records (`references`, in
/// ledger order), grouped into step attempts, at most 64 kept (past that, only the group
/// of the ledger head replaces the last kept one) and at most 32 exchanges per attempt
/// (past that, the last is replaced); `loads` holds what loading each record gave and
/// `chain` what validating the whole chain gave. Integrity messages are appended; a
/// refusal of the chain or of a record read ends the inspection.
pub fn inspect_provider_attempts(
    references: &Vec<ProviderRecordReference>,
    loads: &Vec<RecordLoad>,
    chain: &ChainCheck,
    step_names: &Vec<String>,
    messages: &mut Vec<String>,
) -> (r: Result<ProviderAttemptsInventory, InspectError>)
    requires
        loads.len() == references.len(),
        forall|i: int| 0 <= i < references.len() ==> (#[trigger] references@[i]).step < step_names.len(),
    ensures
        match *chain {
            ChainCheck::Refused(e) => r == Err::<ProviderAttemptsInventory, InspectError>(InspectError::Safety(e))
                && final(messages)@ == old(messages)@,
            _ => {
                let m0 = string_seq(old(messages)@) + if *chain == ChainCheck::Sound {
                    Seq::<Seq<char>>::empty()
                } else {
                    seq!["authoritative provider record chain is tampered or incomplete"@]
                };
                let w = provider_walk(
                    references@,
                    loads@,
                    chain_class(*chain),
                    string_seq(step_names@),
                    references.len() as nat,
                );
                &&& string_seq(final(messages)@) == m0 + w.messages
                &&& match r {
                    Ok(inv) => w.refused is None && attempts_view(inv.attempts@) == w.attempts && inv.attempts_total
                        == w.attempts_total && inv.exchanges_total == w.exchanges_total && inv.maxima@
                        == w.maxima,
                    Err(e) => w.refused is Some && e is Safety && e->Safety_0@ == w.refused->0,
                }
            },
        },
{
    let verification_of_chain = match chain {
        ChainCheck::Refused(e) => {
            return Err(InspectError::Safety(e.clone()));
        },
        ChainCheck::Sound => EvidenceClassification::Verified,
        ChainCheck::Missing => EvidenceClassification::Missing,
        ChainCheck::Tampered => EvidenceClassification::Tampered,
    };
    if verification_of_chain != EvidenceClassification::Verified {
        let ghost before = string_seq(messages@);
        let text = string_of(&chars_of("authoritative provider record chain is tampered or incomplete"));
        messages.push(text);
        assert(string_seq(messages@) =~= before.push(text@));
    }
    let ghost m0 = string_seq(messages@);
    assert(m0 =~= string_seq(old(messages)@) + if *chain == ChainCheck::Sound {
        Seq::<Seq<char>>::empty()
    } else {
        seq!["authoritative provider record chain is tampered or incomplete"@]
    });
    let ghost names = string_seq(step_names@);
    let ghost refs = references@;
    let ghost lv = loads@;
    let ghost chain_v = chain_class(*chain);
    let n_steps = step_names.len();
    let mut previous: Vec<Option<u32>> = Vec::new();
    let mut maxima: Vec<Option<u32>> = Vec::new();
    let mut k: usize = 0;
    while k < n_steps
        invariant
            k <= n_steps == step_names.len(),
            previous@.len() == k && maxima@.len() == k,
            forall|j: int| 0 <= j < k ==> #[trigger] previous@[j] == None::<u32>,
            forall|j: int| 0 <= j < k ==> #[trigger] maxima@[j] == None::<u32>,
        decreases n_steps - k,
    {
        previous.push(None);
        maxima.push(None);
        k = k + 1;
    }
    assert(previous@ =~= Seq::new(names.len(), |k: int| None::<u32>));
    assert(maxima@ =~= Seq::new(names.len(), |k: int| None::<u32>));
    let n = references.len();
    let mut attempts: Vec<ProviderAttemptInspection> = Vec::new();
    let mut attempts_total: usize = 0;
    let mut exchanges_total: usize = 0;
    let mut current: Option<(usize, u32)> = None;
    let mut i: usize = 0;
    assert(attempts_view(attempts@) =~= Seq::<AttemptView>::empty());
    assert(m0 + Seq::<Seq<char>>::empty() =~= m0);
    while i < n
        invariant
            i <= n == references.len() == loads.len(),
            refs == references@,
            lv == loads@,
            names == string_seq(step_names@),
            n_steps == step_names.len(),
            chain_v == chain_class(*chain),
            chain_v == verification_of_chain,
            !(*chain is Refused),
            m0 == string_seq(old(messages)@) + if *chain == ChainCheck::Sound {
                Seq::<Seq<char>>::empty()
            } else {
                seq!["authoritative provider record chain is tampered or incomplete"@]
            },
            forall|j: int| 0 <= j < references.len() ==> (#[trigger] references@[j]).step < step_names.len(),
            ({
                let w = provider_walk(refs, lv, chain_v, names, i as nat);
                &&& w.refused is None
                &&& attempts_view(attempts@) == w.attempts
                &&& attempts_total == w.attempts_total
                &&& exchanges_total == w.exchanges_total
                &&& previous@ == w.previous
                &&& maxima@ == w.maxima
                &&& current == w.current
                &&& string_seq(messages@) == m0 + w.messages
            }),
            attempts_total <= i && exchanges_total <= i,
        decreases n - i,
    {
        let ghost w0 = provider_walk(refs, lv, chain_v, names, i as nat);
        let ghost w1 = open_group(w0, refs, names, i as int);
        let r = &references[i];
        let head = &references[n - 1];
        let step = r.step;
        let attempt = r.step_attempt;
        proof {
            lemma_walk_lengths(refs, lv, chain_v, names, i as nat);
        }
        let is_new = match current {
            Some((s, a)) => !(s == step && a == attempt),
            None => true,
        };
        if is_new {
            attempts_total = attempts_total + 1;
            current = Some((step, attempt));
            let m = maxima[step];
            let raised = match m {
                Some(x) => Some(
                    if x < attempt {
                        attempt
                    } else {
                        x
                    },
                ),
                None => Some(attempt),
            };
            maxima.set(step, raised);
            let gap = match previous[step] {
                None => attempt != 1,
                Some(v) => v == u32::MAX || v + 1 != attempt,
            };
            if gap {
                let ghost before = string_seq(messages@);
                let text = gap_message_exec(&step_names[step], attempt);
                messages.push(text);
                assert(string_seq(messages@) =~= before.push(text@));
                assert(names[step as int] == step_names@[step as int]@);
            }
            previous.set(step, Some(attempt));
            let fresh = ProviderAttemptInspection { step, attempt, exchanges: Vec::new() };
            let ghost before_attempts = attempts_view(attempts@);
            assert(attempt_view(fresh).exchanges =~= Seq::<ExchangeView>::empty());
            if attempts.len() < MAX_PROVIDER_ATTEMPTS {
                attempts.push(fresh);
                assert(attempts_view(attempts@) =~= before_attempts.push(attempt_view(fresh)));
            } else if step == head.step && attempt == head.step_attempt {
                attempts.pop();
                attempts.push(fresh);
                assert(attempts_view(attempts@) =~= before_attempts.drop_last().push(attempt_view(fresh)));
            }
        }
        assert(attempts_view(attempts@) == w1.attempts);
        assert(string_seq(messages@) == m0 + w1.messages) by {
            if is_new && attempt_gap(w0.previous[step as int], attempt) {
                assert(m0 + w0.messages.push(gap_message(names[step as int], attempt)) =~= (m0 + w0.messages).push(
                    gap_message(names[step as int], attempt),
                ));
            }
        }
        exchanges_total = exchanges_total + 1;
        let len = attempts.len();
        let matches_last = len > 0 && attempts[len - 1].step == step && attempts[len - 1].attempt == attempt;
        if matches_last {
            assert(attempts_view(attempts@).last() == attempt_view(attempts@[len - 1]));
            let (outcome, verification) = match &loads[i] {
                RecordLoad::Refused(e) => {
                    proof {
                        let w2 = provider_walk(refs, lv, chain_v, names, (i + 1) as nat);
                        assert(w2 == read_record(w1, refs, lv, chain_v, i as int));
                        assert(w2.refused == Some(e@));
                        assert(w2.messages == w1.messages);
                        lemma_walk_refusal_sticks(refs, lv, chain_v, names, (i + 1) as nat, n as nat);
                    }
                    return Err(InspectError::Safety(e.clone()));
                },
                RecordLoad::Loaded(o) => (clone_text(o), verification_of_chain),
                RecordLoad::Missing => {
                    let ghost before = string_seq(messages@);
                    let text = record_message_exec(&r.path, true);
                    messages.push(text);
                    assert(string_seq(messages@) =~= before.push(text@));
                    (None, EvidenceClassification::Missing)
                },
                RecordLoad::Tampered => {
                    let ghost before = string_seq(messages@);
                    let text = record_message_exec(&r.path, false);
                    messages.push(text);
                    assert(string_seq(messages@) =~= before.push(text@));
                    (None, EvidenceClassification::Tampered)
                },
            };
            let exchange = ProviderExchangeInspection {
                exchange_index: r.exchange_index,
                kind: r.kind.clone(),
                phase: r.phase.clone(),
                outcome,
                ledger_head: same_reference(r, head),
                verification,
            };
            let ghost before_attempts = attempts_view(attempts@);
            let mut last = attempts.pop().unwrap();
            let ghost before_exchanges = exchanges_view(last.exchanges@);
            if last.exchanges.len() < MAX_PROVIDER_EXCHANGES_PER_ATTEMPT {
                last.exchanges.push(exchange);
                assert(exchanges_view(last.exchanges@) =~= before_exchanges.push(exchange_view(exchange)));
            } else {
                let at = last.exchanges.len() - 1;
                last.exchanges.set(at, exchange);
                assert(exchanges_view(last.exchanges@) =~= before_exchanges.update(at as int, exchange_view(exchange)));
            }
            attempts.push(last);
            assert(attempts_view(attempts@) =~= before_attempts.update(
                before_attempts.len() - 1,
                attempt_view(last),
            ));
        }
        proof {
            let w2 = provider_walk(refs, lv, chain_v, names, (i + 1) as nat);
            assert(w2 == read_record(w1, refs, lv, chain_v, i as int));
        }
        i = i + 1;
    }
    Ok(ProviderAttemptsInventory { attempts, attempts_total, exchanges_total, maxima })
}

proof fn lemma_walk_lengths(
    refs: Seq<ProviderRecordReference>,
    loads: Seq<RecordLoad>,
    chain: EvidenceClassification,
    names: Seq<Seq<char>>,
    n: nat,
)
    requires
        n <= refs.len(),
        forall|i: int| 0 <= i < refs.len() ==> (#[trigger] refs[i]).step < names.len(),
    ensures
        provider_walk(refs, loads, chain, names, n).previous.len() == names.len(),
        provider_walk(refs, loads, chain, names, n).maxima.len() == names.len(),
    decreases n,
{
    if n > 0 {
        lemma_walk_lengths(refs, loads, chain, names, (n - 1) as nat);
        assert(refs[n - 1].step < names.len());
    }
}

proof fn lemma_walk_refusal_sticks(
    refs: Seq<ProviderRecordReference>,
    loads: Seq<RecordLoad>,
    chain: EvidenceClassification,
    names: Seq<Seq<char>>,
    m: nat,
    n: nat,
)
    requires
        m <= n,
        provider_walk(refs, loads, chain, names, m).refused is Some,
    ensures
        provider_walk(refs, loads, chain, names, n) == provider_walk(refs, loads, chain, names, m),
    decreases n - m,
{
    if m < n {
        lemma_walk_refusal_sticks(refs, loads, chain, names, m, (n - 1) as nat);
    }
}


/// The totals stay factual whatever the bounds keep: every record read counts as an
/// exchange and no more attempts are counted than records read, while at most 64
/// attempts are kept, each with at most 32 exchanges.
pub proof fn lemma_provider_totals_are_factual(
    refs: Seq<ProviderRecordReference>,
    loads: Seq<RecordLoad>,
    chain: EvidenceClassification,
    names: Seq<Seq<char>>,
    n: nat,
)
    requires
        n <= refs.len(),
        provider_walk(refs, loads, chain, names, n).refused is None,
    ensures
        provider_walk(refs, loads, chain, names, n).exchanges_total == n,
        provider_walk(refs, loads, chain, names, n).attempts_total <= n,
        provider_walk(refs, loads, chain, names, n).attempts.len() <= MAX_PROVIDER_ATTEMPTS,
        forall|k: int|
            0 <= k < provider_walk(refs, loads, chain, names, n).attempts.len() ==> (#[trigger] provider_walk(
                refs,
                loads,
                chain,
                names,
                n,
            ).attempts[k]).exchanges.len() <= MAX_PROVIDER_EXCHANGES_PER_ATTEMPT,
    decreases n,
{
    if n > 0 {
        let s = provider_walk(refs, loads, chain, names, (n - 1) as nat);
        if s.refused is Some {
            lemma_walk_refusal_sticks(refs, loads, chain, names, (n - 1) as nat, n);
        } else {
            lemma_provider_totals_are_factual(refs, loads, chain, names, (n - 1) as nat);
            let s1 = open_group(s, refs, names, n - 1);
            assert forall|k: int| 0 <= k < s1.attempts.len() implies (#[trigger] s1.attempts[k]).exchanges.len()
                <= MAX_PROVIDER_EXCHANGES_PER_ATTEMPT by {
                if s1 != s && k < s.attempts.len() && s1.attempts[k] != s.attempts[k] {
                    assert(s1.attempts[k].exchanges.len() == 0);
                }
            }
        }
    }
}


proof fn lemma_current_is_last_group(
    refs: Seq<ProviderRecordReference>,
    loads: Seq<RecordLoad>,
    chain: EvidenceClassification,
    names: Seq<Seq<char>>,
    m: nat,
)
    requires
        1 <= m <= refs.len(),
        provider_walk(refs, loads, chain, names, m).refused is None,
    ensures
        provider_walk(refs, loads, chain, names, m).current == Some((refs[m - 1].step, refs[m - 1].step_attempt)),
{
}

proof fn lemma_head_group_is_last(
    refs: Seq<ProviderRecordReference>,
    loads: Seq<RecordLoad>,
    chain: EvidenceClassification,
    names: Seq<Seq<char>>,
    m: nat,
)
    requires
        1 <= m <= refs.len(),
        refs[m - 1].step == refs.last().step,
        refs[m - 1].step_attempt == refs.last().step_attempt,
        provider_walk(refs, loads, chain, names, m).refused is None,
    ensures
        provider_walk(refs, loads, chain, names, m).attempts.len() > 0,
        provider_walk(refs, loads, chain, names, m).attempts.last().step == refs.last().step,
        provider_walk(refs, loads, chain, names, m).attempts.last().attempt == refs.last().step_attempt,
    decreases m,
{
    let s = provider_walk(refs, loads, chain, names, (m - 1) as nat);
    let r = refs[m - 1];
    if s.current == Some((r.step, r.step_attempt)) {
        assert(m >= 2);
        lemma_current_is_last_group(refs, loads, chain, names, (m - 1) as nat);
        lemma_head_group_is_last(refs, loads, chain, names, (m - 1) as nat);
    }
}

/// The attempt that holds the ledger head is always reported: once every record is read,
/// the last kept attempt is the step attempt of the last record, however many attempts
/// came before it.
pub proof fn lemma_ledger_head_attempt_is_kept(
    refs: Seq<ProviderRecordReference>,
    loads: Seq<RecordLoad>,
    chain: EvidenceClassification,
    names: Seq<Seq<char>>,
)
    requires
        refs.len() > 0,
        provider_walk(refs, loads, chain, names, refs.len()).refused is None,
    ensures
        provider_walk(refs, loads, chain, names, refs.len()).attempts.len() > 0,
        provider_walk(refs, loads, chain, names, refs.len()).attempts.last().step == refs.last().step,
        provider_walk(refs, loads, chain, names, refs.len()).attempts.last().attempt == refs.last().step_attempt,
{
    lemma_head_group_is_last(refs, loads, chain, names, refs.len());
}

} // verus!
