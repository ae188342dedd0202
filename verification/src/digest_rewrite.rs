//! Rewriting the digests that migrated JSON artifacts hold: every field that names a
//! digest is followed through the aliases that the migration collected.
use vstd::prelude::*;

use crate::migration::{alias_map, follow_aliases, is_known_typed_digest_field, resolve_digest_alias, typed_digest_fields};
use crate::text::{chars_of, ends_with, has_suffix, seq_eq, slice_of, string_of};

verus! {

/// A JSON value as migration reads it; an object holds its members in key order.
#[derive(Debug, PartialEq, Eq)]
pub enum JsonValue {
    Null,
    Bool(bool),
    /// A number, as it displays.
    Number(String),
    Text(String),
    Array(Vec<JsonValue>),
    Object(Vec<(String, JsonValue)>),
}

pub enum JsonView {
    Null,
    Bool(bool),
    Number(Seq<char>),
    Text(Seq<char>),
    Array(Seq<JsonView>),
    Object(Seq<(Seq<char>, JsonView)>),
}

pub open spec fn json_view(v: JsonValue) -> JsonView
    decreases v,
{
    match v {
        JsonValue::Null => JsonView::Null,
        JsonValue::Bool(b) => JsonView::Bool(b),
        JsonValue::Number(n) => JsonView::Number(n@),
        JsonValue::Text(s) => JsonView::Text(s@),
        JsonValue::Array(items) => JsonView::Array(
            Seq::new(
                items@.len(),
                |i: int|
                    if 0 <= i < items@.len() {
                        json_view(items@[i])
                    } else {
                        JsonView::Null
                    },
            ),
        ),
        JsonValue::Object(members) => JsonView::Object(
            Seq::new(
                members@.len(),
                |i: int|
                    if 0 <= i < members@.len() {
                        (members@[i].0@, json_view(members@[i].1))
                    } else {
                        (Seq::<char>::empty(), JsonView::Null)
                    },
            ),
        ),
    }
}

/// The value of the first member with this key.
pub open spec fn member(members: Seq<(Seq<char>, JsonView)>, key: Seq<char>) -> Option<JsonView>
    decreases members.len(),
{
    if members.len() == 0 {
        None
    } else if members[0].0 == key {
        Some(members[0].1)
    } else {
        member(members.skip(1), key)
    }
}

pub open spec fn is_text(v: Option<JsonView>) -> bool {
    v matches Some(JsonView::Text(_))
}

/// A member of an object that names a digest: `digest` beside a text `path`, `<x>_digest`
/// beside a text `<x>_path` (both text), or one of the typed digest fields.
pub open spec fn is_digest_key(members: Seq<(Seq<char>, JsonView)>, key: Seq<char>) -> bool {
    ||| key == "digest"@ && is_text(member(members, "path"@)) && is_text(member(members, "digest"@))
    ||| ends_with(key, "_digest"@) && is_text(member(members, key)) && is_text(
        member(members, key.subrange(0, key.len() - 7) + "_path"@),
    )
    ||| typed_digest_fields().contains(key)
}

/// A digest text followed through the aliases; any other value is kept.
pub open spec fn rewrite_digest_value(v: JsonView, aliases: Map<Seq<char>, Seq<char>>) -> JsonView {
    match v {
        JsonView::Text(s) => JsonView::Text(follow_aliases(aliases, s, Set::empty())),
        _ => v,
    }
}

/// The `input_digests` map: each text value is a digest.
pub open spec fn rewrite_named_digests(v: JsonView, aliases: Map<Seq<char>, Seq<char>>) -> JsonView {
    match v {
        JsonView::Object(members) => JsonView::Object(
            members.map_values(|m: (Seq<char>, JsonView)| (m.0, rewrite_digest_value(m.1, aliases))),
        ),
        _ => v,
    }
}

/// Every digest field of a JSON value rewritten through the aliases, at any depth.
pub open spec fn rewrite_digest_fields(v: JsonView, aliases: Map<Seq<char>, Seq<char>>) -> JsonView
    decreases v,
{
    match v {
        JsonView::Array(items) => JsonView::Array(
            Seq::new(
                items.len(),
                |i: int|
                    if 0 <= i < items.len() {
                        rewrite_digest_fields(items[i], aliases)
                    } else {
                        JsonView::Null
                    },
            ),
        ),
        JsonView::Object(members) => JsonView::Object(
            Seq::new(
                members.len(),
                |i: int|
                    if 0 <= i < members.len() {
                        (
                            members[i].0,
                            if is_digest_key(members, members[i].0) {
                                rewrite_digest_value(members[i].1, aliases)
                            } else if members[i].0 == "input_digests"@ {
                                rewrite_named_digests(members[i].1, aliases)
                            } else {
                                rewrite_digest_fields(members[i].1, aliases)
                            },
                        )
                    } else {
                        (Seq::<char>::empty(), JsonView::Null)
                    },
            ),
        ),
        _ => v,
    }
}

pub open spec fn members_view(members: Seq<(String, JsonValue)>) -> Seq<(Seq<char>, JsonView)> {
    Seq::new(members.len(), |i: int| (members[i].0@, json_view(members[i].1)))
}

pub(crate) fn copy_json(v: &JsonValue) -> (r: JsonValue)
    ensures
        json_view(r) == json_view(*v),
    decreases v,
{
    match v {
        JsonValue::Null => JsonValue::Null,
        JsonValue::Bool(b) => JsonValue::Bool(*b),
        JsonValue::Number(n) => JsonValue::Number(n.clone()),
        JsonValue::Text(s) => JsonValue::Text(s.clone()),
        JsonValue::Array(items) => {
            let mut out: Vec<JsonValue> = Vec::new();
            let mut i: usize = 0;
            while i < items.len()
                invariant
                    i <= items.len(),
                    *v == JsonValue::Array(*items),
                    out@.len() == i,
                    forall|j: int| 0 <= j < i ==> json_view(#[trigger] out@[j]) == json_view(items@[j]),
                decreases items.len() - i,
            {
                assert(decreases_to!(*v => v->Array_0));
                assert(decreases_to!(v->Array_0 => v->Array_0@));
                assert(decreases_to!(v->Array_0@ => v->Array_0@[i as int]));
                out.push(copy_json(&items[i]));
                i = i + 1;
            }
            let r = JsonValue::Array(out);
            assert(json_view(r)->Array_0 =~= json_view(*v)->Array_0);
            r
        },
        JsonValue::Object(members) => {
            let mut out: Vec<(String, JsonValue)> = Vec::new();
            let mut i: usize = 0;
            while i < members.len()
                invariant
                    i <= members.len(),
                    *v == JsonValue::Object(*members),
                    out@.len() == i,
                    forall|j: int| 0 <= j < i ==> (#[trigger] out@[j]).0@ == members@[j].0@ && json_view(out@[j].1)
                        == json_view(members@[j].1),
                decreases members.len() - i,
            {
                assert(decreases_to!(*v => v->Object_0));
                assert(decreases_to!(v->Object_0 => v->Object_0@));
                assert(decreases_to!(v->Object_0@ => v->Object_0@[i as int]));
                assert(decreases_to!(v->Object_0@[i as int] => v->Object_0@[i as int].1));
                let child = copy_json(&members[i].1);
                out.push((members[i].0.clone(), child));
                i = i + 1;
            }
            let r = JsonValue::Object(out);
            assert(json_view(r)->Object_0 =~= json_view(*v)->Object_0);
            r
        },
    }
}


proof fn lemma_object_view(v: JsonValue)
    requires
        v is Object,
    ensures
        json_view(v) == JsonView::Object(members_view(v->Object_0@)),
{
    assert(json_view(v)->Object_0 =~= members_view(v->Object_0@));
}

fn member_is_text(members: &Vec<(String, JsonValue)>, key: &Vec<char>) -> (r: bool)
    ensures
        r == is_text(member(members_view(members@), key@)),
{
    let ghost mv = members_view(members@);
    let mut i: usize = 0;
    assert(mv.skip(0) =~= mv);
    while i < members.len()
        invariant
            i <= members.len(),
            mv == members_view(members@),
            member(mv, key@) == member(mv.skip(i as int), key@),
        decreases members.len() - i,
    {
        let ghost rest = mv.skip(i as int);
        assert(rest[0] == mv[i as int]);
        assert(rest.skip(1) =~= mv.skip(i + 1));
        if seq_eq(&chars_of(members[i].0.as_str()), key) {
            return match &members[i].1 {
                JsonValue::Text(_) => true,
                _ => false,
            };
        }
        i = i + 1;
    }
    assert(mv.skip(members.len() as int) =~= Seq::<(Seq<char>, JsonView)>::empty());
    false
}

fn is_digest_key_exec(members: &Vec<(String, JsonValue)>, key: &String) -> (r: bool)
    ensures
        r == is_digest_key(members_view(members@), key@),
{
    let kc = chars_of(key.as_str());
    let plain = seq_eq(&kc, &chars_of("digest")) && member_is_text(members, &chars_of("path")) && member_is_text(
        members,
        &chars_of("digest"),
    );
    let paired = if kc.len() >= 7 && has_suffix(&kc, &chars_of("_digest")) && member_is_text(members, &kc) {
        let mut path_key = slice_of(&kc, 0, kc.len() - 7);
        let suffix = chars_of("_path");
        crate::text::append_chars(&mut path_key, &suffix);
        assert(path_key@ == key@.subrange(0, key@.len() - 7) + "_path"@);
        member_is_text(members, &path_key)
    } else {
        false
    };
    proof {
        reveal_strlit("_digest");
        if kc.len() < 7 {
            assert(!ends_with(key@, "_digest"@));
        }
    }
    plain || paired || is_known_typed_digest_field(key.as_str())
}

fn rewrite_digest_value_exec(v: &JsonValue, aliases: &Vec<(String, String)>) -> (r: JsonValue)
    ensures
        json_view(r) == rewrite_digest_value(json_view(*v), alias_map(aliases@)),
{
    match v {
        JsonValue::Text(s) => JsonValue::Text(resolve_digest_alias(s, aliases)),
        _ => copy_json(v),
    }
}

fn rewrite_named_digests_exec(v: &JsonValue, aliases: &Vec<(String, String)>) -> (r: JsonValue)
    ensures
        json_view(r) == rewrite_named_digests(json_view(*v), alias_map(aliases@)),
{
    match v {
        JsonValue::Object(members) => {
            let ghost m = alias_map(aliases@);
            proof {
                lemma_object_view(*v);
            }
            let mut out: Vec<(String, JsonValue)> = Vec::new();
            let mut i: usize = 0;
            while i < members.len()
                invariant
                    i <= members.len(),
                    m == alias_map(aliases@),
                    out@.len() == i,
                    forall|j: int| 0 <= j < i ==> (#[trigger] out@[j]).0@ == members@[j].0@ && json_view(out@[j].1)
                        == rewrite_digest_value(json_view(members@[j].1), m),
                decreases members.len() - i,
            {
                let child = rewrite_digest_value_exec(&members[i].1, aliases);
                out.push((members[i].0.clone(), child));
                i = i + 1;
            }
            let r = JsonValue::Object(out);
            proof {
                lemma_object_view(r);
                assert(members_view(out@) =~= members_view(members@).map_values(
                    |e: (Seq<char>, JsonView)| (e.0, rewrite_digest_value(e.1, m)),
                ));
            }
            r
        },
        _ => copy_json(v),
    }
}

/// Rewrites every digest field of a JSON value, at any depth, through the collected
/// aliases: digest-named members of objects take their alias, the members of
/// `input_digests` do too, and everything else is kept as it is.
pub fn rewrite_digests(v: &JsonValue, aliases: &Vec<(String, String)>) -> (r: JsonValue)
    ensures
        json_view(r) == rewrite_digest_fields(json_view(*v), alias_map(aliases@)),
    decreases v,
{
    let ghost m = alias_map(aliases@);
    match v {
        JsonValue::Array(items) => {
            let mut out: Vec<JsonValue> = Vec::new();
            let mut i: usize = 0;
            while i < items.len()
                invariant
                    i <= items.len(),
                    *v == JsonValue::Array(*items),
                    m == alias_map(aliases@),
                    out@.len() == i,
                    forall|j: int| 0 <= j < i ==> json_view(#[trigger] out@[j]) == rewrite_digest_fields(
                        json_view(items@[j]),
                        m,
                    ),
                decreases items.len() - i,
            {
                assert(decreases_to!(*v => v->Array_0));
                assert(decreases_to!(v->Array_0 => v->Array_0@));
                assert(decreases_to!(v->Array_0@ => v->Array_0@[i as int]));
                out.push(rewrite_digests(&items[i], aliases));
                i = i + 1;
            }
            let r = JsonValue::Array(out);
            assert(json_view(r)->Array_0 =~= rewrite_digest_fields(json_view(*v), m)->Array_0);
            r
        },
        JsonValue::Object(members) => {
            proof {
                lemma_object_view(*v);
            }
            let ghost mv = members_view(members@);
            let mut out: Vec<(String, JsonValue)> = Vec::new();
            let mut i: usize = 0;
            while i < members.len()
                invariant
                    i <= members.len(),
                    *v == JsonValue::Object(*members),
                    m == alias_map(aliases@),
                    mv == members_view(members@),
                    out@.len() == i,
                    forall|j: int| 0 <= j < i ==> (#[trigger] out@[j]).0@ == members@[j].0@ && json_view(out@[j].1)
                        == (if is_digest_key(mv, members@[j].0@) {
                        rewrite_digest_value(json_view(members@[j].1), m)
                    } else if members@[j].0@ == "input_digests"@ {
                        rewrite_named_digests(json_view(members@[j].1), m)
                    } else {
                        rewrite_digest_fields(json_view(members@[j].1), m)
                    }),
                decreases members.len() - i,
            {
                let key = &members[i].0;
                let child = if is_digest_key_exec(members, key) {
                    rewrite_digest_value_exec(&members[i].1, aliases)
                } else if seq_eq(&chars_of(key.as_str()), &chars_of("input_digests")) {
                    rewrite_named_digests_exec(&members[i].1, aliases)
                } else {
                    assert(decreases_to!(*v => v->Object_0));
                    assert(decreases_to!(v->Object_0 => v->Object_0@));
                    assert(decreases_to!(v->Object_0@ => v->Object_0@[i as int]));
                    assert(decreases_to!(v->Object_0@[i as int] => v->Object_0@[i as int].1));
                    rewrite_digests(&members[i].1, aliases)
                };
                out.push((key.clone(), child));
                i = i + 1;
            }
            let r = JsonValue::Object(out);
            proof {
                lemma_object_view(r);
                assert(members_view(out@) =~= rewrite_digest_fields(json_view(*v), m)->Object_0);
            }
            r
        },
        _ => copy_json(v),
    }
}


/// Rewriting through no aliases leaves every JSON value as it is.
pub proof fn lemma_rewrite_without_aliases_is_identity(v: JsonView)
    ensures
        rewrite_digest_fields(v, Map::empty()) == v,
    decreases v,
{
    let m = Map::<Seq<char>, Seq<char>>::empty();
    assert(m.dom() =~= Set::<Seq<char>>::empty());
    match v {
        JsonView::Array(items) => {
            assert forall|i: int| 0 <= i < items.len() implies rewrite_digest_fields(items[i], m) == items[i] by {
                lemma_rewrite_without_aliases_is_identity(items[i]);
            }
            assert(rewrite_digest_fields(v, m)->Array_0 =~= items);
        },
        JsonView::Object(members) => {
            assert forall|i: int| 0 <= i < members.len() implies {
                let x = (#[trigger] members[i]).1;
                &&& rewrite_digest_value(x, m) == x
                &&& rewrite_named_digests(x, m) == x
                &&& rewrite_digest_fields(x, m) == x
            } by {
                let x = members[i].1;
                lemma_rewrite_without_aliases_is_identity(x);
                if let JsonView::Object(inner) = x {
                    assert(inner.map_values(|e: (Seq<char>, JsonView)| (e.0, rewrite_digest_value(e.1, m))) =~= inner);
                }
            }
            assert(rewrite_digest_fields(v, m)->Object_0 =~= members);
        },
        _ => {},
    }
}

} // verus!
