//! Upgrading legacy JSON artifacts to the current durable schema: an object without a
//! `schema_version` gains the current one; any other version is refused.
use vstd::prelude::*;

use crate::digest_rewrite::{copy_json, json_view, member, members_view, JsonValue, JsonView};
use crate::migration::MigrationError;
use crate::text::{append_chars, chars_of, lex_less, lex_lt, seq_eq, string_of};

verus! {

/// Whether an artifact still has the legacy schema or already the current one.
#[derive(Debug, Clone, Copy, PartialEq, Eq, Structural)]
pub enum SchemaState {
    Legacy,
    Current,
}

/// The schema state of a JSON artifact of the given kind, or why it is refused.
pub open spec fn schema_state_spec(v: JsonView, kind: Seq<char>) -> Result<SchemaState, Seq<char>> {
    match v {
        JsonView::Object(members) => match member(members, "schema_version"@) {
            None => Ok(SchemaState::Legacy),
            Some(JsonView::Number(n)) => if n == "1"@ {
                Ok(SchemaState::Current)
            } else {
                Err(
                    "unsupported "@ + kind + " schema_version "@ + n
                        + "; only missing legacy v0 or current v1 can be migrated"@,
                )
            },
            Some(_) => Err("invalid "@ + kind + " schema_version; expected integer 1 or an omitted legacy version"@),
        },
        _ => Err(kind + " must be a JSON object"@),
    }
}

/// How many members come before `key` in key order.
pub open spec fn keys_before(members: Seq<(Seq<char>, JsonView)>, key: Seq<char>) -> nat
    decreases members.len(),
{
    if members.len() == 0 {
        0
    } else {
        keys_before(members.drop_last(), key) + if lex_lt(members.last().0, key) {
            1nat
        } else {
            0nat
        }
    }
}

/// A legacy artifact with the current schema version inserted at its place in key order;
/// a current one as it is.
pub open spec fn upgrade_spec(v: JsonView, kind: Seq<char>) -> Result<JsonView, Seq<char>> {
    match schema_state_spec(v, kind) {
        Err(e) => Err(e),
        Ok(SchemaState::Current) => Ok(v),
        Ok(SchemaState::Legacy) => {
            let members = v->Object_0;
            Ok(
                JsonView::Object(
                    members.insert(
                        keys_before(members, "schema_version"@) as int,
                        ("schema_version"@, JsonView::Number("1"@)),
                    ),
                ),
            )
        },
    }
}

/// The position of the first member with this key.
pub open spec fn member_index(members: Seq<(Seq<char>, JsonView)>, key: Seq<char>) -> Option<int>
    decreases members.len(),
{
    if members.len() == 0 {
        None
    } else if members[0].0 == key {
        Some(0)
    } else {
        match member_index(members.skip(1), key) {
            Some(i) => Some(i + 1),
            None => None,
        }
    }
}

proof fn lemma_member_index(members: Seq<(Seq<char>, JsonView)>, key: Seq<char>)
    ensures
        match member_index(members, key) {
            Some(i) => 0 <= i < members.len() && members[i].0 == key && member(members, key) == Some(members[i].1),
            None => member(members, key) is None,
        },
    decreases members.len(),
{
    if members.len() > 0 && members[0].0 != key {
        lemma_member_index(members.skip(1), key);
    }
}

fn member_at(members: &Vec<(String, JsonValue)>, key: &str) -> (r: Option<usize>)
    ensures
        r matches Some(i) ==> i < members.len(),
        match member_index(members_view(members@), key@) {
            Some(i) => r matches Some(j) && j as int == i,
            None => r is None,
        },
        match r {
            Some(i) => member(members_view(members@), key@) == Some(json_view(members@[i as int].1)),
            None => member(members_view(members@), key@) is None,
        },
{
    let ghost mv = members_view(members@);
    proof {
        lemma_member_index(mv, key@);
    }
    let kc = chars_of(key);
    let mut i: usize = 0;
    assert(mv.skip(0) =~= mv);
    while i < members.len()
        invariant
            i <= members.len(),
            kc@ == key@,
            mv == members_view(members@),
            member(mv, key@) == member(mv.skip(i as int), key@),
            member_index(mv, key@) == match member_index(mv.skip(i as int), key@) {
                Some(k) => Some(k + i),
                None => None::<int>,
            },
        decreases members.len() - i,
    {
        let ghost rest = mv.skip(i as int);
        assert(rest[0] == mv[i as int]);
        assert(rest.skip(1) =~= mv.skip(i + 1));
        if seq_eq(&chars_of(members[i].0.as_str()), &kc) {
            return Some(i);
        }
        i = i + 1;
    }
    assert(mv.skip(members.len() as int) =~= Seq::<(Seq<char>, JsonView)>::empty());
    None
}

/// The schema state of a JSON artifact of the given kind.
pub fn schema_state(v: &JsonValue, kind: &str) -> (r: Result<SchemaState, MigrationError>)
    ensures
        match schema_state_spec(json_view(*v), kind@) {
            Ok(s) => r == Ok::<SchemaState, MigrationError>(s),
            Err(e) => r matches Err(m) && m.message@ == e,
        },
{
    match v {
        JsonValue::Object(members) => {
            assert(json_view(*v)->Object_0 =~= members_view(members@));
            match member_at(members, "schema_version") {
                None => Ok(SchemaState::Legacy),
                Some(i) => match &members[i].1 {
                    JsonValue::Number(n) => {
                        if seq_eq(&chars_of(n.as_str()), &chars_of("1")) {
                            Ok(SchemaState::Current)
                        } else {
                            let mut m = chars_of("unsupported ");
                            append_chars(&mut m, &chars_of(kind));
                            append_chars(&mut m, &chars_of(" schema_version "));
                            append_chars(&mut m, &chars_of(n.as_str()));
                            append_chars(&mut m, &chars_of("; only missing legacy v0 or current v1 can be migrated"));
                            Err(MigrationError::new(string_of(&m)))
                        }
                    },
                    _ => {
                        let mut m = chars_of("invalid ");
                        append_chars(&mut m, &chars_of(kind));
                        append_chars(&mut m, &chars_of(" schema_version; expected integer 1 or an omitted legacy version"));
                        Err(MigrationError::new(string_of(&m)))
                    },
                },
            }
        },
        _ => {
            let mut m = chars_of(kind);
            append_chars(&mut m, &chars_of(" must be a JSON object"));
            Err(MigrationError::new(string_of(&m)))
        },
    }
}


fn copy_members(members: &Vec<(String, JsonValue)>) -> (r: Vec<(String, JsonValue)>)
    ensures
        members_view(r@) == members_view(members@),
{
    let mut out: Vec<(String, JsonValue)> = Vec::new();
    let mut i: usize = 0;
    while i < members.len()
        invariant
            i <= members.len(),
            out@.len() == i,
            forall|j: int| 0 <= j < i ==> (#[trigger] out@[j]).0@ == members@[j].0@ && json_view(out@[j].1) == json_view(
                members@[j].1,
            ),
        decreases members.len() - i,
    {
        out.push((members[i].0.clone(), copy_json(&members[i].1)));
        i = i + 1;
    }
    assert(members_view(out@) =~= members_view(members@));
    out
}

proof fn lemma_object_view(v: JsonValue)
    requires
        v is Object,
    ensures
        json_view(v) == JsonView::Object(members_view(v->Object_0@)),
{
    assert(json_view(v)->Object_0 =~= members_view(v->Object_0@));
}

proof fn lemma_array_view(v: JsonValue)
    requires
        v is Array,
    ensures
        json_view(v) == JsonView::Array(v->Array_0@.map_values(|x: JsonValue| json_view(x))),
{
    assert(json_view(v)->Array_0 =~= v->Array_0@.map_values(|x: JsonValue| json_view(x)));
}

/// A legacy JSON artifact of the given kind with the current schema version added; a
/// current one unchanged; anything else refused.
pub fn upgrade_schema(v: &JsonValue, kind: &str) -> (r: Result<JsonValue, MigrationError>)
    ensures
        match upgrade_spec(json_view(*v), kind@) {
            Ok(u) => r matches Ok(x) && json_view(x) == u,
            Err(e) => r matches Err(m) && m.message@ == e,
        },
{
    let state = schema_state(v, kind)?;
    let members = match v {
        JsonValue::Object(members) => members,
        _ => {
            return Ok(copy_json(v));
        },
    };
    match state {
        SchemaState::Current => Ok(copy_json(v)),
        SchemaState::Legacy => {
            proof {
                lemma_object_view(*v);
            }
            let ghost mv = members_view(members@);
            let key = chars_of("schema_version");
            let mut before: usize = 0;
            let mut i: usize = 0;
            while i < members.len()
                invariant
                    i <= members.len(),
                    key@ == "schema_version"@,
                    mv == members_view(members@),
                    before == keys_before(mv.take(i as int), "schema_version"@),
                    before <= i,
                decreases members.len() - i,
            {
                assert(mv.take(i + 1).drop_last() =~= mv.take(i as int));
                assert(mv.take(i + 1).last() == mv[i as int]);
                if lex_less(&chars_of(members[i].0.as_str()), &key) {
                    before = before + 1;
                }
                i = i + 1;
            }
            assert(mv.take(members.len() as int) =~= mv);
            let mut out = copy_members(members);
            out.insert(before, (string_of(&key), JsonValue::Number(string_of(&chars_of("1")))));
            let r = JsonValue::Object(out);
            proof {
                lemma_object_view(r);
                assert(members_view(out@) =~= mv.insert(before as int, ("schema_version"@, JsonView::Number("1"@))));
            }
            Ok(r)
        },
    }
}

/// Upgrades each item in order; the first refusal stands.
pub open spec fn upgrade_items(items: Seq<JsonView>, kind: Seq<char>) -> Result<Seq<JsonView>, Seq<char>>
    decreases items.len(),
{
    if items.len() == 0 {
        Ok(seq![])
    } else {
        match upgrade_items(items.drop_last(), kind) {
            Err(e) => Err(e),
            Ok(prev) => match upgrade_spec(items.last(), kind) {
                Err(e) => Err(e),
                Ok(u) => Ok(prev.push(u)),
            },
        }
    }
}

/// A run with each of its embedded policy decisions upgraded.
pub open spec fn upgrade_run_decisions_spec(v: JsonView) -> Result<JsonView, Seq<char>> {
    let refused = "LoopRun policy_decisions must be an array"@;
    match v {
        JsonView::Object(ms) => match member_index(ms, "policy_decisions"@) {
            Some(i) => match ms[i].1 {
                JsonView::Array(items) => match upgrade_items(items, "embedded LoopRun PolicyDecision"@) {
                    Ok(u) => Ok(JsonView::Object(ms.update(i, (ms[i].0, JsonView::Array(u))))),
                    Err(e) => Err(e),
                },
                _ => Err(refused),
            },
            None => Err(refused),
        },
        _ => Err(refused),
    }
}

/// Development evidence with its embedded policy decision upgraded.
pub open spec fn upgrade_development_decision_spec(v: JsonView) -> Result<JsonView, Seq<char>> {
    let refused = "managed Development evidence has no policy_decision"@;
    match v {
        JsonView::Object(ms) => match member_index(ms, "policy_decision"@) {
            Some(i) => match upgrade_spec(ms[i].1, "embedded Development PolicyDecision"@) {
                Ok(u) => Ok(JsonView::Object(ms.update(i, (ms[i].0, u)))),
                Err(e) => Err(e),
            },
            None => Err(refused),
        },
        _ => Err(refused),
    }
}

/// Upgrades the policy decisions that a run embeds.
pub fn migrate_run_policy_decisions(v: &JsonValue) -> (r: Result<JsonValue, MigrationError>)
    ensures
        match upgrade_run_decisions_spec(json_view(*v)) {
            Ok(u) => r matches Ok(x) && json_view(x) == u,
            Err(e) => r matches Err(m) && m.message@ == e,
        },
{
    let members = match v {
        JsonValue::Object(members) => members,
        _ => {
            return Err(MigrationError::new(string_of(&chars_of("LoopRun policy_decisions must be an array"))));
        },
    };
    proof {
        lemma_object_view(*v);
    }
    let ghost mv = members_view(members@);
    let at = match member_at(members, "policy_decisions") {
        Some(i) => i,
        None => {
            return Err(MigrationError::new(string_of(&chars_of("LoopRun policy_decisions must be an array"))));
        },
    };
    assert(mv[at as int].1 == json_view(members@[at as int].1));
    let items = match &members[at].1 {
        JsonValue::Array(items) => items,
        _ => {
            return Err(MigrationError::new(string_of(&chars_of("LoopRun policy_decisions must be an array"))));
        },
    };
    proof {
        lemma_array_view(members@[at as int].1);
    }
    let ghost iv = items@.map_values(|x: JsonValue| json_view(x));
    let mut upgraded: Vec<JsonValue> = Vec::new();
    let mut k: usize = 0;
    assert(iv.take(0) =~= Seq::<JsonView>::empty());
    assert(upgraded@.map_values(|x: JsonValue| json_view(x)) =~= Seq::<JsonView>::empty());
    while k < items.len()
        invariant
            k <= items.len(),
            iv == items@.map_values(|x: JsonValue| json_view(x)),
            json_view(*v) == JsonView::Object(mv),
            member_index(mv, "policy_decisions"@) == Some(at as int),
            at < mv.len(),
            mv[at as int].1 == JsonView::Array(iv),
            upgrade_items(iv.take(k as int), "embedded LoopRun PolicyDecision"@) == Ok::<Seq<JsonView>, Seq<char>>(
                upgraded@.map_values(|x: JsonValue| json_view(x)),
            ),
        decreases items.len() - k,
    {
        assert(iv.take(k + 1).drop_last() =~= iv.take(k as int));
        assert(iv.take(k + 1).last() == json_view(items@[k as int]));
        let u = match upgrade_schema(&items[k], "embedded LoopRun PolicyDecision") {
            Ok(u) => u,
            Err(e) => {
                proof {
                    lemma_upgrade_items_error_sticks(iv, "embedded LoopRun PolicyDecision"@, k as int + 1);
                }
                return Err(e);
            },
        };
        let ghost before = upgraded@.map_values(|x: JsonValue| json_view(x));
        upgraded.push(u);
        assert(upgraded@.map_values(|x: JsonValue| json_view(x)) =~= before.push(json_view(u)));
        k = k + 1;
    }
    assert(iv.take(items.len() as int) =~= iv);
    let mut out = copy_members(members);
    let name = members[at].0.clone();
    let arr = JsonValue::Array(upgraded);
    proof {
        lemma_array_view(arr);
    }
    out.set(at, (name, arr));
    let r = JsonValue::Object(out);
    proof {
        lemma_object_view(r);
        assert(members_view(out@) =~= mv.update(
            at as int,
            (mv[at as int].0, JsonView::Array(upgraded@.map_values(|x: JsonValue| json_view(x)))),
        ));
    }
    Ok(r)
}

/// Upgrades the policy decision that Development evidence embeds.
pub fn migrate_development_policy_decision(v: &JsonValue) -> (r: Result<JsonValue, MigrationError>)
    ensures
        match upgrade_development_decision_spec(json_view(*v)) {
            Ok(u) => r matches Ok(x) && json_view(x) == u,
            Err(e) => r matches Err(m) && m.message@ == e,
        },
{
    let members = match v {
        JsonValue::Object(members) => members,
        _ => {
            return Err(MigrationError::new(string_of(&chars_of("managed Development evidence has no policy_decision"))));
        },
    };
    proof {
        lemma_object_view(*v);
    }
    let ghost mv = members_view(members@);
    let at = match member_at(members, "policy_decision") {
        Some(i) => i,
        None => {
            return Err(MigrationError::new(string_of(&chars_of("managed Development evidence has no policy_decision"))));
        },
    };
    assert(mv[at as int].1 == json_view(members@[at as int].1));
    let u = upgrade_schema(&members[at].1, "embedded Development PolicyDecision")?;
    let mut out = copy_members(members);
    let name = members[at].0.clone();
    let ghost uv = json_view(u);
    out.set(at, (name, u));
    let r = JsonValue::Object(out);
    proof {
        lemma_object_view(r);
        assert(members_view(out@) =~= mv.update(at as int, (mv[at as int].0, uv)));
    }
    Ok(r)
}


proof fn lemma_upgrade_items_error_sticks(items: Seq<JsonView>, kind: Seq<char>, k: int)
    requires
        0 <= k <= items.len(),
        upgrade_items(items.take(k), kind) is Err,
    ensures
        upgrade_items(items, kind) == upgrade_items(items.take(k), kind),
    decreases items.len() - k,
{
    if k < items.len() {
        assert(items.take(k + 1).drop_last() =~= items.take(k));
        lemma_upgrade_items_error_sticks(items, kind, k + 1);
    } else {
        assert(items.take(k) =~= items);
    }
}

proof fn lemma_keys_before_bound(members: Seq<(Seq<char>, JsonView)>, key: Seq<char>)
    ensures
        keys_before(members, key) <= members.len(),
    decreases members.len(),
{
    if members.len() > 0 {
        lemma_keys_before_bound(members.drop_last(), key);
    }
}

proof fn lemma_member_after_insert(
    members: Seq<(Seq<char>, JsonView)>,
    i: int,
    key: Seq<char>,
    value: JsonView,
)
    requires
        0 <= i <= members.len(),
        member(members, key) is None,
    ensures
        member(members.insert(i, (key, value)), key) == Some(value),
    decreases i,
{
    let inserted = members.insert(i, (key, value));
    if i > 0 {
        assert(inserted[0] == members[0]);
        assert(inserted.skip(1) =~= members.skip(1).insert(i - 1, (key, value)));
        lemma_member_after_insert(members.skip(1), i - 1, key, value);
    }
}

/// Upgrading an artifact that has been upgraded gives it back unchanged, so a retried
/// upgrade changes nothing more.
pub proof fn lemma_upgrade_is_idempotent(v: JsonView, kind: Seq<char>)
    requires
        upgrade_spec(v, kind) is Ok,
    ensures
        upgrade_spec(upgrade_spec(v, kind)->Ok_0, kind) == upgrade_spec(v, kind),
{
    if schema_state_spec(v, kind) == Ok::<SchemaState, Seq<char>>(SchemaState::Legacy) {
        let members = v->Object_0;
        lemma_keys_before_bound(members, "schema_version"@);
        lemma_member_after_insert(
            members,
            keys_before(members, "schema_version"@) as int,
            "schema_version"@,
            JsonView::Number("1"@),
        );
    }
}

} // verus!
