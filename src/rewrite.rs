use vstd::prelude::*;

use crate::json::{
    find_key, has_key, index_of, insert_key, items_view, keys_unique, lemma_insert_key_unique,
    lemma_remove_unique, lookup, members_view, remove_key, Json, JsonValue, Members,
};

verus! {

/// One of the four rewrites of the normalization pipeline.
#[derive(Clone, Copy, PartialEq, Eq, Structural)]
pub enum Pass {
    StripConstraints,
    UnifyAlternatives,
    CloseObjects,
    RequireAll,
}

/// A refinement keyword that the target dialect rejects.
pub open spec fn constraint_key(k: Seq<char>) -> bool {
    k == "minLength"@ || k == "maxLength"@ || k == "pattern"@ || k == "format"@ || k
        == "minimum"@ || k == "maximum"@ || k == "multipleOf"@ || k == "patternProperties"@ || k
        == "unevaluatedProperties"@ || k == "propertyNames"@ || k == "minProperties"@ || k
        == "maxProperties"@ || k == "unevaluatedItems"@ || k == "contains"@ || k
        == "minContains"@ || k == "maxContains"@ || k == "minItems"@ || k == "maxItems"@ || k
        == "uniqueItems"@
}

pub open spec fn keeps_member(e: (Seq<char>, Json)) -> bool {
    !constraint_key(e.0)
}

pub open spec fn strip_members(m: Members) -> Members {
    m.filter(|e: (Seq<char>, Json)| keeps_member(e))
}

/// Moves the value under `k`, if any, to `anyOf`.
pub open spec fn rename_to_any_of(m: Members, k: Seq<char>) -> Members {
    if has_key(m, k) {
        insert_key(remove_key(m, k), "anyOf"@, m[index_of(m, k)].1)
    } else {
        m
    }
}

pub open spec fn unify_members(m: Members) -> Members {
    rename_to_any_of(rename_to_any_of(m, "oneOf"@), "allOf"@)
}

pub open spec fn close_members(m: Members) -> Members {
    if lookup(m, "type"@) == Some(Json::Str("object"@)) {
        insert_key(m, "additionalProperties"@, Json::Bool(false))
    } else {
        m
    }
}

/// `rs` followed by the name of each property of `ps` that is not yet among them.
pub open spec fn add_missing(rs: Seq<Json>, ps: Members) -> Seq<Json>
    decreases ps.len(),
{
    if ps.len() == 0 {
        rs
    } else {
        let r = add_missing(rs, ps.drop_last());
        let name = Json::Str(ps.last().0);
        if r.contains(name) {
            r
        } else {
            r.push(name)
        }
    }
}

pub open spec fn require_members(m: Members) -> Members {
    match (lookup(m, "properties"@), lookup(m, "required"@)) {
        (Some(Json::Object(ps)), Some(Json::Array(rs))) => insert_key(
            m,
            "required"@,
            Json::Array(add_missing(rs, ps)),
        ),
        _ => m,
    }
}

/// What pass `p` does to the members of one object.
pub open spec fn rewrite_members(p: Pass, m: Members) -> Members {
    match p {
        Pass::StripConstraints => strip_members(m),
        Pass::UnifyAlternatives => unify_members(m),
        Pass::CloseObjects => close_members(m),
        Pass::RequireAll => require_members(m),
    }
}

/// Pass `p` applied to every object of the document.
pub open spec fn walk(p: Pass, j: Json) -> Json
    decreases j, 1int,
{
    match j {
        Json::Array(s) => Json::Array(
            Seq::new(
                s.len(),
                |i: int|
                    if 0 <= i < s.len() {
                        walk(p, s[i])
                    } else {
                        Json::Null
                    },
            ),
        ),
        Json::Object(m) => Json::Object(rewrite_members(p, walk_members(p, m))),
        _ => j,
    }
}

/// Pass `p` applied inside each member value of one object.
pub open spec fn walk_members(p: Pass, m: Members) -> Members
    decreases m, 0int,
{
    Seq::new(
        m.len(),
        |i: int|
            if 0 <= i < m.len() {
                (m[i].0, walk(p, m[i].1))
            } else {
                (Seq::empty(), Json::Null)
            },
    )
}

/// The whole pipeline, in its fixed order.
pub open spec fn normalize(j: Json) -> Json {
    walk(
        Pass::RequireAll,
        walk(Pass::CloseObjects, walk(Pass::UnifyAlternatives, walk(Pass::StripConstraints, j))),
    )
}


fn key_is(k: &String, lit: &str) -> (r: bool)
    ensures
        r == (k@ == lit@),
{
    let owned = lit.to_owned();
    *k == owned
}

fn is_constraint_key(k: &String) -> (r: bool)
    ensures
        r == constraint_key(k@),
{
    key_is(k, "minLength") || key_is(k, "maxLength") || key_is(k, "pattern") || key_is(k, "format")
        || key_is(k, "minimum") || key_is(k, "maximum") || key_is(k, "multipleOf") || key_is(
        k,
        "patternProperties",
    ) || key_is(k, "unevaluatedProperties") || key_is(k, "propertyNames") || key_is(
        k,
        "minProperties",
    ) || key_is(k, "maxProperties") || key_is(k, "unevaluatedItems") || key_is(k, "contains")
        || key_is(k, "minContains") || key_is(k, "maxContains") || key_is(k, "minItems")
        || key_is(k, "maxItems") || key_is(k, "uniqueItems")
}

/// Sets member `k` to `v`, as `insert_key` says.
fn set_member(members: &mut Vec<(String, JsonValue)>, k: &str, v: JsonValue)
    requires
        keys_unique(members_view(old(members)@)),
    ensures
        members_view(final(members)@) == insert_key(members_view(old(members)@), k@, v@),
        keys_unique(members_view(final(members)@)),
{
    let ghost m0 = members_view(members@);
    proof {
        lemma_insert_key_unique(m0, k@, v@);
    }
    match find_key(members, k) {
        Some(i) => {
            members.remove(i);
            members.insert(i, (k.to_owned(), v));
            assert(members_view(members@) =~= m0.update(i as int, (k@, v@)));
        },
        None => {
            members.push((k.to_owned(), v));
            assert(members_view(members@) =~= m0.push((k@, v@)));
        },
    }
}

/// Drops every member whose key is a constraint keyword.
pub(crate) fn strip_constraint_members(members: Vec<(String, JsonValue)>) -> (r: Vec<(String, JsonValue)>)
    ensures
        members_view(r@) == strip_members(members_view(members@)),
{
    let ghost m0 = members_view(members@);
    let mut members = members;
    let mut i: usize = 0;
    let ghost mut j: int = 0;
    assert(m0.take(0) =~= Seq::<(Seq<char>, Json)>::empty());
    assert(m0.skip(0) =~= m0);
    assert(members_view(members@) =~= strip_members(m0.take(0)) + m0.skip(0));
    while i < members.len()
        invariant
            0 <= j <= m0.len(),
            i <= members.len(),
            members_view(members@) == strip_members(m0.take(j)) + m0.skip(j),
            strip_members(m0.take(j)).len() == i,
        decreases members.len() - i,
    {
        let ghost before = members_view(members@);
        assert(before[i as int] == m0[j]);
        assert(m0.take(j + 1).drop_last() =~= m0.take(j));
        proof {
            reveal(Seq::filter);
        }
        assert(m0.skip(j) =~= seq![m0[j]] + m0.skip(j + 1));
        if is_constraint_key(&members[i].0) {
            members.remove(i);
            assert(members_view(members@) =~= before.remove(i as int));
            assert(strip_members(m0.take(j + 1)) == strip_members(m0.take(j)));
        } else {
            i = i + 1;
            assert(strip_members(m0.take(j + 1)) == strip_members(m0.take(j)).push(m0[j]));
        }
        proof {
            j = j + 1;
        }
        assert(members_view(members@) =~= strip_members(m0.take(j)) + m0.skip(j));
    }
    assert(m0.take(j) =~= m0);
    assert(members_view(members@) =~= strip_members(m0));
    members
}

/// Moves member `k`, if there is one, to `anyOf`.
fn rename_member_to_any_of(members: &mut Vec<(String, JsonValue)>, k: &str)
    requires
        keys_unique(members_view(old(members)@)),
    ensures
        members_view(final(members)@) == rename_to_any_of(members_view(old(members)@), k@),
        keys_unique(members_view(final(members)@)),
{
    let ghost m0 = members_view(members@);
    match find_key(members, k) {
        Some(i) => {
            let (_, value) = members.remove(i);
            assert(members_view(members@) =~= m0.remove(i as int));
            proof {
                lemma_remove_unique(m0, i as int);
            }
            set_member(members, "anyOf", value);
        },
        None => {},
    }
}

/// Rewrites `oneOf` and then `allOf` as `anyOf`.
pub(crate) fn unify_alternative_members(members: Vec<(String, JsonValue)>) -> (r: Vec<(String, JsonValue)>)
    requires
        keys_unique(members_view(members@)),
    ensures
        members_view(r@) == unify_members(members_view(members@)),
        keys_unique(members_view(r@)),
{
    let mut members = members;
    rename_member_to_any_of(&mut members, "oneOf");
    rename_member_to_any_of(&mut members, "allOf");
    members
}

/// Whether `v` is the string `lit`.
fn is_string(v: &JsonValue, lit: &str) -> (r: bool)
    ensures
        r == (v@ == Json::Str(lit@)),
{
    match v {
        JsonValue::String(s) => key_is(s, lit),
        _ => false,
    }
}

/// Forbids undeclared properties on an object schema.
pub(crate) fn close_object_members(members: Vec<(String, JsonValue)>) -> (r: Vec<(String, JsonValue)>)
    requires
        keys_unique(members_view(members@)),
    ensures
        members_view(r@) == close_members(members_view(members@)),
        keys_unique(members_view(r@)),
{
    let mut members = members;
    let ghost m0 = members_view(members@);
    let is_object = match find_key(&members, "type") {
        Some(i) => is_string(&members[i].1, "object"),
        None => false,
    };
    if is_object {
        set_member(&mut members, "additionalProperties", JsonValue::Bool(false));
    }
    members
}

/// Whether `Json::Str(name@)` is among `items`.
fn contains_name(items: &Vec<JsonValue>, name: &String) -> (r: bool)
    ensures
        r == items_view(items@).contains(Json::Str(name@)),
{
    let mut i: usize = 0;
    while i < items.len()
        invariant
            forall|j: int| 0 <= j < i ==> items[j]@ != Json::Str(name@),
        decreases items.len() - i,
    {
        let found = match &items[i] {
            JsonValue::String(s) => *s == *name,
            _ => false,
        };
        if found {
            assert(items_view(items@)[i as int] == Json::Str(name@));
            return true;
        }
        i = i + 1;
    }
    assert(!items_view(items@).contains(Json::Str(name@))) by {
        if items_view(items@).contains(Json::Str(name@)) {
            let j = choose|j: int| 0 <= j < items@.len() && items_view(items@)[j] == Json::Str(name@);
            assert(items[j]@ == Json::Str(name@));
        }
    }
    false
}

/// The keys of `members`, in order.
fn member_names(members: &Vec<(String, JsonValue)>) -> (r: Vec<String>)
    ensures
        r.len() == members.len(),
        forall|i: int| 0 <= i < r.len() ==> r[i]@ == members[i].0@,
{
    let mut names: Vec<String> = Vec::new();
    let mut i: usize = 0;
    while i < members.len()
        invariant
            names.len() == i,
            i <= members.len(),
            forall|j: int| 0 <= j < i ==> names[j]@ == members[j].0@,
        decreases members.len() - i,
    {
        names.push(members[i].0.clone());
        i = i + 1;
    }
    names
}

/// Appends to `items` each of `names` that is not among them yet.
fn append_missing(items: &mut Vec<JsonValue>, names: Vec<String>, Ghost(ps): Ghost<Members>)
    requires
        names.len() == ps.len(),
        forall|i: int| 0 <= i < names.len() ==> names[i]@ == ps[i].0,
    ensures
        items_view(final(items)@) == add_missing(items_view(old(items)@), ps),
{
    let ghost rs0 = items_view(items@);
    let mut t: usize = 0;
    assert(ps.take(0).len() == 0);
    while t < names.len()
        invariant
            names.len() == ps.len(),
            forall|i: int| 0 <= i < names.len() ==> names[i]@ == ps[i].0,
            t <= names.len(),
            items_view(items@) == add_missing(rs0, ps.take(t as int)),
        decreases names.len() - t,
    {
        assert(ps.take(t + 1).drop_last() =~= ps.take(t as int));
        let ghost before = items_view(items@);
        let name = names[t].clone();
        if !contains_name(items, &name) {
            items.push(JsonValue::String(name));
            assert(items_view(items@) =~= before.push(Json::Str(ps[t as int].0)));
        }
        t = t + 1;
    }
    assert(ps.take(t as int) =~= ps);
}

/// Makes every declared property required, where the node lists both.
pub(crate) fn require_all_members(members: Vec<(String, JsonValue)>) -> (r: Vec<(String, JsonValue)>)
    requires
        keys_unique(members_view(members@)),
    ensures
        members_view(r@) == require_members(members_view(members@)),
        keys_unique(members_view(r@)),
{
    let mut members = members;
    let ghost m0 = members_view(members@);
    let found = (find_key(&members, "properties"), find_key(&members, "required"));
    if let (Some(pi), Some(qi)) = found {
        let names = match &members[pi].1 {
            JsonValue::Object(ps) => Some(member_names(ps)),
            _ => None,
        };
        if let Some(names) = names {
            let ghost ps = members_view(members[pi as int].1->Object_0@);
            assert(members[pi as int].1@ == Json::Object(ps)) by {
                assert(members[pi as int].1@->Object_0 =~= ps);
            }
            let (key, value) = members.remove(qi);
            match value {
                JsonValue::Array(items) => {
                    let mut items = items;
                    assert(value@ == Json::Array(items_view(items@))) by {
                        assert(value@->Array_0 =~= items_view(items@));
                    }
                    append_missing(&mut items, names, Ghost(ps));
                    let ghost new_value = JsonValue::Array(items);
                    assert(new_value@ == Json::Array(items_view(items@))) by {
                        assert(new_value@->Array_0 =~= items_view(items@));
                    }
                    members.insert(qi, (key, JsonValue::Array(items)));
                    assert(members_view(members@) =~= m0.update(
                        qi as int,
                        ("required"@, Json::Array(add_missing(items_view(value->Array_0@), ps))),
                    ));
                },
                other => {
                    members.insert(qi, (key, other));
                    assert(members_view(members@) =~= m0);
                },
            }
        }
    }
    members
}

} // verus!
