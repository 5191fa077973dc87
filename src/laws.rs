use vstd::prelude::*;

use crate::json::{
    has_key, index_of, insert_key, keys_unique, lemma_children_smaller, lemma_index_of,
    lemma_insert_key_unique, lemma_well_formed_parts, lookup, remove_key, well_formed, Json,
    Members,
};
use crate::rewrite::{
    add_missing, constraint_key, keeps_member, normalize, rename_to_any_of, rewrite_members,
    strip_members, unify_members, walk, walk_members, Pass,
};
use crate::walk::{
    lemma_rewrite_well_formed, lemma_strip_members, values_well_formed,
};

verus! {

/// The keys that the rewrites add are distinct from those they remove.
proof fn lemma_key_literals()
    ensures
        !constraint_key("anyOf"@),
        !constraint_key("additionalProperties"@),
        !constraint_key("required"@),
        "anyOf"@ != "oneOf"@,
        "anyOf"@ != "allOf"@,
        "oneOf"@ != "allOf"@,
        "additionalProperties"@ != "oneOf"@,
        "additionalProperties"@ != "allOf"@,
        "required"@ != "oneOf"@,
        "required"@ != "allOf"@,
        "additionalProperties"@ != "type"@,
        "required"@ != "type"@,
        "required"@ != "additionalProperties"@,
        "required"@ != "properties"@,
{
    reveal_strlit("anyOf");
    reveal_strlit("oneOf");
    reveal_strlit("allOf");
    reveal_strlit("additionalProperties");
    reveal_strlit("required");
    reveal_strlit("type");
    reveal_strlit("properties");
    reveal_strlit("minLength");
    reveal_strlit("maxLength");
    reveal_strlit("pattern");
    reveal_strlit("format");
    reveal_strlit("minimum");
    reveal_strlit("maximum");
    reveal_strlit("multipleOf");
    reveal_strlit("patternProperties");
    reveal_strlit("unevaluatedProperties");
    reveal_strlit("propertyNames");
    reveal_strlit("minProperties");
    reveal_strlit("maxProperties");
    reveal_strlit("unevaluatedItems");
    reveal_strlit("contains");
    reveal_strlit("minContains");
    reveal_strlit("maxContains");
    reveal_strlit("minItems");
    reveal_strlit("maxItems");
    reveal_strlit("uniqueItems");
    assert("minLength"@[0] == 'm');
    assert("maxLength"@[0] == 'm');
    assert("pattern"@[0] == 'p');
    assert("format"@[0] == 'f');
    assert("minimum"@[0] == 'm');
    assert("maximum"@[0] == 'm');
    assert("multipleOf"@[0] == 'm');
    assert("patternProperties"@[0] == 'p');
    assert("unevaluatedProperties"@[0] == 'u');
    assert("propertyNames"@[0] == 'p');
    assert("minProperties"@[0] == 'm');
    assert("maxProperties"@[0] == 'm');
    assert("unevaluatedItems"@[0] == 'u');
    assert("contains"@[0] == 'c');
    assert("minContains"@[0] == 'm');
    assert("maxContains"@[0] == 'm');
    assert("minItems"@[0] == 'm');
    assert("maxItems"@[0] == 'm');
    assert("uniqueItems"@[0] == 'u');
    assert("anyOf"@[0] == 'a');
    assert("anyOf"@[1] == 'n');
    assert("allOf"@[1] == 'l');
    assert("oneOf"@[0] == 'o');
    assert("required"@[0] == 'r');
    assert("type"@[0] == 't');
    assert("properties"@[0] == 'p');
    assert("additionalProperties"@[0] == 'a');
}


/// `q` holds of the members of every object anywhere in `j`.
pub open spec fn every_object(j: Json, q: spec_fn(Members) -> bool) -> bool
    decreases j,
{
    match j {
        Json::Array(s) => forall|i: int| 0 <= i < s.len() ==> every_object(#[trigger] s[i], q),
        Json::Object(m) => q(m) && forall|i: int|
            0 <= i < m.len() ==> every_object(#[trigger] m[i].1, q),
        _ => true,
    }
}

/// `every_object` one level down.
pub proof fn lemma_every_object_parts(j: Json, q: spec_fn(Members) -> bool)
    ensures
        j is Array ==> (every_object(j, q) <==> forall|i: int|
            0 <= i < j->Array_0.len() ==> #[trigger] every_object(j->Array_0[i], q)),
        j is Object ==> (every_object(j, q) <==> q(j->Object_0) && forall|i: int|
            0 <= i < j->Object_0.len() ==> #[trigger] every_object(j->Object_0[i].1, q)),
        !(j is Array) && !(j is Object) ==> every_object(j, q),
{
    lemma_children_smaller(j);
    if j is Array {
        let s = j->Array_0;
        if every_object(j, q) {
            assert forall|i: int| 0 <= i < s.len() implies #[trigger] every_object(s[i], q) by {
                assert(decreases_to!(j => j->Array_0[i]));
            }
        }
        if forall|i: int| 0 <= i < s.len() ==> #[trigger] every_object(s[i], q) {
            assert forall|i: int| 0 <= i < s.len() implies every_object(#[trigger] s[i], q) by {
                assert(decreases_to!(j => j->Array_0[i]));
            }
        }
    }
    if j is Object {
        let m = j->Object_0;
        if every_object(j, q) {
            assert forall|i: int| 0 <= i < m.len() implies #[trigger] every_object(m[i].1, q) by {
                assert(decreases_to!(j => j->Object_0[i].1));
            }
        }
        if forall|i: int| 0 <= i < m.len() ==> #[trigger] every_object(m[i].1, q) {
            assert forall|i: int| 0 <= i < m.len() implies every_object(#[trigger] m[i].1, q) by {
                assert(decreases_to!(j => j->Object_0[i].1));
            }
        }
    }
}

/// What `walk_members` keeps: the keys, in order, with each value walked.
pub proof fn lemma_walk_members(p: Pass, m: Members)
    requires
        keys_unique(m),
    ensures
        walk_members(p, m).len() == m.len(),
        forall|i: int|
            0 <= i < m.len() ==> #[trigger] walk_members(p, m)[i] == (m[i].0, walk(p, m[i].1)),
        keys_unique(walk_members(p, m)),
        forall|k: Seq<char>| #[trigger] has_key(walk_members(p, m), k) == has_key(m, k),
        forall|k: Seq<char>|
            has_key(m, k) ==> #[trigger] lookup(walk_members(p, m), k) == Some(
                walk(p, m[index_of(m, k)].1),
            ),
{
    let w = walk_members(p, m);
    assert forall|i: int| 0 <= i < m.len() implies #[trigger] w[i] == (m[i].0, walk(p, m[i].1)) by {
        assert(decreases_to!(m => m[i]));
        assert(decreases_to!(m[i] => m[i].1));
    }
    assert forall|k: Seq<char>| #[trigger] has_key(w, k) == has_key(m, k) by {
        if has_key(m, k) {
            let i = index_of(m, k);
            assert(w[i].0 == k);
        }
        if has_key(w, k) {
            let i = index_of(w, k);
            assert(m[i].0 == k);
        }
    }
    assert forall|k: Seq<char>| has_key(m, k) implies #[trigger] lookup(w, k) == Some(
        walk(p, m[index_of(m, k)].1),
    ) by {
        let i = index_of(m, k);
        lemma_index_of(w, k, i);
    }
}

/// `add_missing` keeps `rs` as its prefix, appends only strings, and ends up
/// holding the name of every property of `ps`.
pub proof fn lemma_add_missing_items(rs: Seq<Json>, ps: Members)
    ensures
        add_missing(rs, ps).len() >= rs.len(),
        forall|i: int| 0 <= i < rs.len() ==> #[trigger] add_missing(rs, ps)[i] == rs[i],
        forall|i: int|
            rs.len() <= i < add_missing(rs, ps).len() ==> #[trigger] add_missing(rs, ps)[i] is Str,
        forall|i: int| 0 <= i < ps.len() ==> add_missing(rs, ps).contains(Json::Str(#[trigger] ps[i].0)),
        forall|x: Json| rs.contains(x) ==> #[trigger] add_missing(rs, ps).contains(x),
    decreases ps.len(),
{
    if ps.len() > 0 {
        let d = ps.drop_last();
        lemma_add_missing_items(rs, d);
        let r = add_missing(rs, d);
        let name = Json::Str(ps.last().0);
        let out = add_missing(rs, ps);
        if !r.contains(name) {
            assert(out == r.push(name));
            assert(out[r.len() as int] == name);
        }
        assert forall|i: int| 0 <= i < ps.len() implies out.contains(Json::Str(#[trigger] ps[i].0)) by {
            if i < d.len() {
                assert(d[i] == ps[i]);
                assert(r.contains(Json::Str(d[i].0)));
                let k = choose|k: int| 0 <= k < r.len() && r[k] == Json::Str(d[i].0);
                assert(out[k] == r[k]);
            }
        }
        assert forall|x: Json| rs.contains(x) implies #[trigger] out.contains(x) by {
            assert(r.contains(x));
            let k = choose|k: int| 0 <= k < r.len() && r[k] == x;
            assert(out[k] == r[k]);
        }
    }
}


/// Every member value of `m` passes `every_object(_, q)`.
pub open spec fn values_every(m: Members, q: spec_fn(Members) -> bool) -> bool {
    forall|i: int| 0 <= i < m.len() ==> #[trigger] every_object(m[i].1, q)
}

proof fn lemma_insert_values_every(m: Members, k: Seq<char>, v: Json, q: spec_fn(Members) -> bool)
    requires
        values_every(m, q),
        every_object(v, q),
    ensures
        values_every(insert_key(m, k, v), q),
{
    let r = insert_key(m, k, v);
    assert forall|i: int| 0 <= i < r.len() implies #[trigger] every_object(r[i].1, q) by {
        if i < m.len() && r[i] != m[i] {
            assert(r[i].1 == v);
        }
    }
}

proof fn lemma_rename_values_every(m: Members, k: Seq<char>, q: spec_fn(Members) -> bool)
    requires
        values_every(m, q),
    ensures
        values_every(rename_to_any_of(m, k), q),
{
    if has_key(m, k) {
        let i = index_of(m, k);
        let r = m.remove(i);
        assert(values_every(r, q)) by {
            assert forall|a: int| 0 <= a < r.len() implies #[trigger] every_object(r[a].1, q) by {
                if a < i {
                    assert(r[a] == m[a]);
                } else {
                    assert(r[a] == m[a + 1]);
                }
            }
        }
        assert(every_object(m[i].1, q));
        lemma_insert_values_every(r, "anyOf"@, m[i].1, q);
    }
}

/// The values that a rewrite leaves pass `every_object(_, q)` when those it was given do.
pub proof fn lemma_rewrite_values_every(p: Pass, m: Members, q: spec_fn(Members) -> bool)
    requires
        keys_unique(m),
        values_well_formed(m),
        values_every(m, q),
    ensures
        values_every(rewrite_members(p, m), q),
{
    match p {
        Pass::StripConstraints => {
            lemma_strip_members(m);
            let f = strip_members(m);
            assert forall|i: int| 0 <= i < f.len() implies #[trigger] every_object(f[i].1, q) by {
                assert(m.contains(f[i]));
                let k = choose|k: int| 0 <= k < m.len() && m[k] == f[i];
                assert(every_object(m[k].1, q));
            }
        },
        Pass::UnifyAlternatives => {
            lemma_rename_values_every(m, "oneOf"@, q);
            lemma_rename_values_every(rename_to_any_of(m, "oneOf"@), "allOf"@, q);
        },
        Pass::CloseObjects => {
            lemma_every_object_parts(Json::Bool(false), q);
            lemma_insert_values_every(m, "additionalProperties"@, Json::Bool(false), q);
        },
        Pass::RequireAll => {
            let lp = lookup(m, "properties"@);
            let lr = lookup(m, "required"@);
            if lp is Some && lp->Some_0 is Object && lr is Some && lr->Some_0 is Array {
                let ps = lp->Some_0->Object_0;
                let rs = lr->Some_0->Array_0;
                let i = index_of(m, "required"@);
                assert(every_object(m[i].1, q));
                lemma_every_object_parts(Json::Array(rs), q);
                lemma_add_missing_items(rs, ps);
                let out = add_missing(rs, ps);
                assert forall|t: int| 0 <= t < out.len() implies #[trigger] every_object(out[t], q) by {
                    if t < rs.len() {
                        assert(out[t] == rs[t]);
                    } else {
                        lemma_every_object_parts(out[t], q);
                    }
                }
                lemma_every_object_parts(Json::Array(out), q);
                lemma_insert_values_every(m, "required"@, Json::Array(out), q);
            }
        },
    }
}

/// Walking keeps documents well formed.
pub proof fn lemma_walk_well_formed(p: Pass, j: Json)
    requires
        well_formed(j),
    ensures
        well_formed(walk(p, j)),
    decreases j,
{
    lemma_children_smaller(j);
    lemma_well_formed_parts(j);
    let r = walk(p, j);
    match j {
        Json::Array(s) => {
            assert forall|i: int| 0 <= i < s.len() implies #[trigger] well_formed(r->Array_0[i]) by {
                assert(decreases_to!(j => j->Array_0[i]));
                lemma_walk_well_formed(p, s[i]);
            }
            lemma_well_formed_parts(r);
        },
        Json::Object(m) => {
            lemma_walk_members(p, m);
            let w = walk_members(p, m);
            assert forall|i: int| 0 <= i < w.len() implies #[trigger] well_formed(w[i].1) by {
                assert(decreases_to!(j => j->Object_0[i].1));
                lemma_walk_well_formed(p, m[i].1);
            }
            lemma_rewrite_well_formed(p, w);
            lemma_well_formed_parts(r);
        },
        _ => {},
    }
}

/// `q` holds of every object after pass `p`: the rewrite gives it on every
/// well-formed object (that had it already, unless `establish`).
pub proof fn lemma_walk_every(p: Pass, j: Json, q: spec_fn(Members) -> bool, establish: bool)
    requires
        well_formed(j),
        establish || every_object(j, q),
        forall|m: Members|
            keys_unique(m) && values_well_formed(m) && (establish || q(m)) ==> #[trigger] q(
                rewrite_members(p, walk_members(p, m)),
            ),
    ensures
        every_object(walk(p, j), q),
    decreases j,
{
    lemma_children_smaller(j);
    lemma_well_formed_parts(j);
    lemma_every_object_parts(j, q);
    let r = walk(p, j);
    lemma_every_object_parts(r, q);
    match j {
        Json::Array(s) => {
            assert forall|i: int| 0 <= i < s.len() implies #[trigger] every_object(r->Array_0[i], q) by {
                assert(decreases_to!(j => j->Array_0[i]));
                lemma_walk_every(p, s[i], q, establish);
            }
        },
        Json::Object(m) => {
            lemma_walk_members(p, m);
            let w = walk_members(p, m);
            assert forall|i: int| 0 <= i < w.len() implies #[trigger] every_object(w[i].1, q) by {
                assert(decreases_to!(j => j->Object_0[i].1));
                lemma_walk_every(p, m[i].1, q, establish);
            }
            assert forall|i: int| 0 <= i < w.len() implies #[trigger] well_formed(w[i].1) by {
                assert(decreases_to!(j => j->Object_0[i].1));
                lemma_walk_well_formed(p, m[i].1);
            }
            assert(values_well_formed(m));
            assert(q(rewrite_members(p, walk_members(p, m))));
            lemma_rewrite_values_every(p, w, q);
        },
        _ => {},
    }
}


/// No key of `m` is a constraint keyword.
pub open spec fn no_constraint_keys(m: Members) -> bool {
    forall|k: Seq<char>| constraint_key(k) ==> !#[trigger] has_key(m, k)
}

/// `m` holds neither `oneOf` nor `allOf`.
pub open spec fn no_alternatives(m: Members) -> bool {
    !has_key(m, "oneOf"@) && !has_key(m, "allOf"@)
}

/// An object schema forbids undeclared properties.
pub open spec fn closed(m: Members) -> bool {
    lookup(m, "type"@) == Some(Json::Str("object"@)) ==> lookup(m, "additionalProperties"@)
        == Some(Json::Bool(false))
}

/// Where `m` lists properties and required names, every property is required.
pub open spec fn all_required(m: Members) -> bool {
    match (lookup(m, "properties"@), lookup(m, "required"@)) {
        (Some(Json::Object(ps)), Some(Json::Array(rs))) => forall|i: int|
            0 <= i < ps.len() ==> rs.contains(Json::Str(#[trigger] ps[i].0)),
        _ => true,
    }
}

proof fn lemma_has_key_lookup(m: Members, k: Seq<char>)
    ensures
        has_key(m, k) <==> lookup(m, k) is Some,
{
}

/// Setting key `k` leaves the other keys as they were.
proof fn lemma_insert_other_keys(m: Members, k: Seq<char>, v: Json)
    requires
        keys_unique(m),
    ensures
        keys_unique(insert_key(m, k, v)),
        has_key(insert_key(m, k, v), k),
        lookup(insert_key(m, k, v), k) == Some(v),
        forall|k2: Seq<char>|
            k2 != k ==> #[trigger] has_key(insert_key(m, k, v), k2) == has_key(m, k2),
        forall|k2: Seq<char>| k2 != k ==> #[trigger] lookup(insert_key(m, k, v), k2) == lookup(m, k2),
{
    lemma_insert_key_unique(m, k, v);
    assert forall|k2: Seq<char>| k2 != k implies #[trigger] has_key(insert_key(m, k, v), k2) == has_key(m, k2) by {
        lemma_has_key_lookup(m, k2);
        lemma_has_key_lookup(insert_key(m, k, v), k2);
    }
}

/// Removing key `k` leaves the other keys as they were.
proof fn lemma_remove_other_keys(m: Members, k: Seq<char>)
    requires
        keys_unique(m),
    ensures
        keys_unique(remove_key(m, k)),
        !has_key(remove_key(m, k), k),
        forall|k2: Seq<char>|
            k2 != k ==> #[trigger] has_key(remove_key(m, k), k2) == has_key(m, k2),
        forall|k2: Seq<char>| k2 != k ==> #[trigger] lookup(remove_key(m, k), k2) == lookup(m, k2),
{
    if has_key(m, k) {
        let i = index_of(m, k);
        let r = m.remove(i);
        crate::json::lemma_remove_unique(m, i);
        assert forall|a: int| 0 <= a < r.len() implies #[trigger] r[a] == if a < i {
            m[a]
        } else {
            m[a + 1]
        } by {}
        if has_key(r, k) {
            let a = index_of(r, k);
            if a < i {
                assert(m[a].0 == k);
            } else {
                assert(m[a + 1].0 == k);
            }
        }
        assert forall|k2: Seq<char>| k2 != k implies #[trigger] has_key(r, k2) == has_key(m, k2)
            && lookup(r, k2) == lookup(m, k2) by {
            if has_key(m, k2) {
                let b = index_of(m, k2);
                let a = if b < i {
                    b
                } else {
                    b - 1
                };
                lemma_index_of(r, k2, a);
            }
            if has_key(r, k2) {
                let a = index_of(r, k2);
                let b = if a < i {
                    a
                } else {
                    a + 1
                };
                lemma_index_of(m, k2, b);
            }
        }
    }
}

/// Moving `k` to `anyOf` drops `k` and keeps every other key but `anyOf`.
proof fn lemma_rename_keys(m: Members, k: Seq<char>)
    requires
        keys_unique(m),
        k != "anyOf"@,
    ensures
        keys_unique(rename_to_any_of(m, k)),
        !has_key(rename_to_any_of(m, k), k),
        forall|k2: Seq<char>|
            k2 != k && k2 != "anyOf"@ ==> #[trigger] has_key(rename_to_any_of(m, k), k2) == has_key(
                m,
                k2,
            ),
{
    if has_key(m, k) {
        lemma_remove_other_keys(m, k);
        lemma_insert_other_keys(remove_key(m, k), "anyOf"@, m[index_of(m, k)].1);
    }
}

/// Strings and booleans walk to themselves, and nothing else walks to one.
proof fn lemma_walk_scalar(p: Pass, j: Json)
    ensures
        (walk(p, j) is Str || walk(p, j) is Bool) ==> walk(p, j) == j,
        (j is Str || j is Bool) ==> walk(p, j) == j,
{
}


/// Stripping removes the constraint keywords; the other rewrites add none.
proof fn lemma_no_constraint_keys_local(p: Pass, m: Members)
    requires
        keys_unique(m),
        values_well_formed(m),
        p == Pass::StripConstraints || no_constraint_keys(m),
    ensures
        no_constraint_keys(rewrite_members(p, walk_members(p, m))),
{
    lemma_key_literals();
    lemma_walk_members(p, m);
    let w = walk_members(p, m);
    let r = rewrite_members(p, w);
    match p {
        Pass::StripConstraints => {
            assert(values_well_formed(w)) by {
                lemma_walk_members_well_formed(p, m);
            }
            lemma_strip_members(w);
            assert forall|k: Seq<char>| constraint_key(k) implies !#[trigger] has_key(r, k) by {
                if has_key(r, k) {
                    let i = index_of(r, k);
                    assert(keeps_member(r[i]));
                }
            }
        },
        Pass::UnifyAlternatives => {
            lemma_rename_keys(w, "oneOf"@);
            lemma_rename_keys(rename_to_any_of(w, "oneOf"@), "allOf"@);
            assert forall|k: Seq<char>| constraint_key(k) implies !#[trigger] has_key(r, k) by {
                assert(!has_key(m, k));
                if k == "oneOf"@ {
                    reveal_strlit("oneOf");
                    assert(!has_key(w, k));
                }
            }
        },
        Pass::CloseObjects => {
            lemma_insert_other_keys(w, "additionalProperties"@, Json::Bool(false));
            assert forall|k: Seq<char>| constraint_key(k) implies !#[trigger] has_key(r, k) by {
                assert(!has_key(m, k));
            }
        },
        Pass::RequireAll => {
            assert forall|k: Seq<char>| constraint_key(k) implies !#[trigger] has_key(r, k) by {
                assert(!has_key(m, k));
                if r != w {
                    let rs = lookup(w, "required"@)->Some_0->Array_0;
                    let ps = lookup(w, "properties"@)->Some_0->Object_0;
                    lemma_insert_other_keys(w, "required"@, Json::Array(add_missing(rs, ps)));
                }
            }
        },
    }
}

/// The walked values of a well-formed object are well formed.
proof fn lemma_walk_members_well_formed(p: Pass, m: Members)
    requires
        keys_unique(m),
        values_well_formed(m),
    ensures
        values_well_formed(walk_members(p, m)),
{
    lemma_walk_members(p, m);
    let w = walk_members(p, m);
    assert forall|i: int| 0 <= i < w.len() implies #[trigger] well_formed(w[i].1) by {
        assert(well_formed(m[i].1));
        lemma_walk_well_formed(p, m[i].1);
    }
}

/// The union rewrite removes `oneOf` and `allOf`; the later rewrites add neither.
proof fn lemma_no_alternatives_local(p: Pass, m: Members)
    requires
        keys_unique(m),
        p == Pass::UnifyAlternatives || (no_alternatives(m) && (p == Pass::CloseObjects || p
            == Pass::RequireAll)),
    ensures
        no_alternatives(rewrite_members(p, walk_members(p, m))),
{
    lemma_key_literals();
    lemma_walk_members(p, m);
    let w = walk_members(p, m);
    let r = rewrite_members(p, w);
    match p {
        Pass::UnifyAlternatives => {
            lemma_rename_keys(w, "oneOf"@);
            lemma_rename_keys(rename_to_any_of(w, "oneOf"@), "allOf"@);
        },
        Pass::CloseObjects => {
            lemma_insert_other_keys(w, "additionalProperties"@, Json::Bool(false));
        },
        Pass::RequireAll => {
            if r != w {
                let rs = lookup(w, "required"@)->Some_0->Array_0;
                let ps = lookup(w, "properties"@)->Some_0->Object_0;
                lemma_insert_other_keys(w, "required"@, Json::Array(add_missing(rs, ps)));
            }
        },
        _ => {},
    }
}

/// Closing closes an object schema; the required rewrite keeps it closed.
proof fn lemma_closed_local(p: Pass, m: Members)
    requires
        keys_unique(m),
        p == Pass::CloseObjects || (closed(m) && p == Pass::RequireAll),
    ensures
        closed(rewrite_members(p, walk_members(p, m))),
{
    lemma_key_literals();
    lemma_walk_members(p, m);
    let w = walk_members(p, m);
    let r = rewrite_members(p, w);
    match p {
        Pass::CloseObjects => {
            lemma_insert_other_keys(w, "additionalProperties"@, Json::Bool(false));
        },
        Pass::RequireAll => {
            if lookup(w, "type"@) == Some(Json::Str("object"@)) {
                let t = m[index_of(m, "type"@)].1;
                lemma_walk_scalar(p, t);
                assert(lookup(m, "type"@) == Some(Json::Str("object"@)));
                let a = m[index_of(m, "additionalProperties"@)].1;
                lemma_walk_scalar(p, a);
                assert(lookup(w, "additionalProperties"@) == Some(Json::Bool(false)));
            }
            if r != w {
                let rs = lookup(w, "required"@)->Some_0->Array_0;
                let ps = lookup(w, "properties"@)->Some_0->Object_0;
                lemma_insert_other_keys(w, "required"@, Json::Array(add_missing(rs, ps)));
            }
        },
        _ => {},
    }
}

/// The required rewrite requires every declared property.
proof fn lemma_all_required_local(m: Members)
    requires
        keys_unique(m),
    ensures
        all_required(rewrite_members(Pass::RequireAll, walk_members(Pass::RequireAll, m))),
{
    lemma_key_literals();
    let p = Pass::RequireAll;
    lemma_walk_members(p, m);
    let w = walk_members(p, m);
    let r = rewrite_members(p, w);
    let lp = lookup(w, "properties"@);
    let lr = lookup(w, "required"@);
    if lp is Some && lp->Some_0 is Object && lr is Some && lr->Some_0 is Array {
        let ps = lp->Some_0->Object_0;
        let rs = lr->Some_0->Array_0;
        lemma_insert_other_keys(w, "required"@, Json::Array(add_missing(rs, ps)));
        lemma_add_missing_items(rs, ps);
    }
}


/// Every stage of the pipeline is well formed.
pub proof fn lemma_stages_well_formed(d: Json)
    requires
        well_formed(d),
    ensures
        well_formed(walk(Pass::StripConstraints, d)),
        well_formed(walk(Pass::UnifyAlternatives, walk(Pass::StripConstraints, d))),
        well_formed(
            walk(Pass::CloseObjects, walk(Pass::UnifyAlternatives, walk(Pass::StripConstraints, d))),
        ),
        well_formed(normalize(d)),
{
    let d1 = walk(Pass::StripConstraints, d);
    let d2 = walk(Pass::UnifyAlternatives, d1);
    let d3 = walk(Pass::CloseObjects, d2);
    lemma_walk_well_formed(Pass::StripConstraints, d);
    lemma_walk_well_formed(Pass::UnifyAlternatives, d1);
    lemma_walk_well_formed(Pass::CloseObjects, d2);
    lemma_walk_well_formed(Pass::RequireAll, d3);
}

/// After normalization no object anywhere holds a constraint keyword.
pub proof fn lemma_normalize_removes_constraints(d: Json)
    requires
        well_formed(d),
    ensures
        every_object(normalize(d), |m: Members| no_constraint_keys(m)),
{
    let q = |m: Members| no_constraint_keys(m);
    let d1 = walk(Pass::StripConstraints, d);
    let d2 = walk(Pass::UnifyAlternatives, d1);
    let d3 = walk(Pass::CloseObjects, d2);
    lemma_stages_well_formed(d);
    assert forall|m: Members| keys_unique(m) && values_well_formed(m) && (true || q(m)) implies #[trigger] q(
        rewrite_members(Pass::StripConstraints, walk_members(Pass::StripConstraints, m)),
    ) by {
        lemma_no_constraint_keys_local(Pass::StripConstraints, m);
    }
    lemma_walk_every(Pass::StripConstraints, d, q, true);
    assert forall|m: Members| keys_unique(m) && values_well_formed(m) && (false || q(m)) implies #[trigger] q(
        rewrite_members(Pass::UnifyAlternatives, walk_members(Pass::UnifyAlternatives, m)),
    ) by {
        lemma_no_constraint_keys_local(Pass::UnifyAlternatives, m);
    }
    lemma_walk_every(Pass::UnifyAlternatives, d1, q, false);
    assert forall|m: Members| keys_unique(m) && values_well_formed(m) && (false || q(m)) implies #[trigger] q(
        rewrite_members(Pass::CloseObjects, walk_members(Pass::CloseObjects, m)),
    ) by {
        lemma_no_constraint_keys_local(Pass::CloseObjects, m);
    }
    lemma_walk_every(Pass::CloseObjects, d2, q, false);
    assert forall|m: Members| keys_unique(m) && values_well_formed(m) && (false || q(m)) implies #[trigger] q(
        rewrite_members(Pass::RequireAll, walk_members(Pass::RequireAll, m)),
    ) by {
        lemma_no_constraint_keys_local(Pass::RequireAll, m);
    }
    lemma_walk_every(Pass::RequireAll, d3, q, false);
}

/// After normalization no object anywhere holds `oneOf` or `allOf`.
pub proof fn lemma_normalize_unifies_alternatives(d: Json)
    requires
        well_formed(d),
    ensures
        every_object(normalize(d), |m: Members| no_alternatives(m)),
{
    let q = |m: Members| no_alternatives(m);
    let d1 = walk(Pass::StripConstraints, d);
    let d2 = walk(Pass::UnifyAlternatives, d1);
    let d3 = walk(Pass::CloseObjects, d2);
    lemma_stages_well_formed(d);
    assert forall|m: Members| keys_unique(m) && values_well_formed(m) && (true || q(m)) implies #[trigger] q(
        rewrite_members(Pass::UnifyAlternatives, walk_members(Pass::UnifyAlternatives, m)),
    ) by {
        lemma_no_alternatives_local(Pass::UnifyAlternatives, m);
    }
    lemma_walk_every(Pass::UnifyAlternatives, d1, q, true);
    assert forall|m: Members| keys_unique(m) && values_well_formed(m) && (false || q(m)) implies #[trigger] q(
        rewrite_members(Pass::CloseObjects, walk_members(Pass::CloseObjects, m)),
    ) by {
        lemma_no_alternatives_local(Pass::CloseObjects, m);
    }
    lemma_walk_every(Pass::CloseObjects, d2, q, false);
    assert forall|m: Members| keys_unique(m) && values_well_formed(m) && (false || q(m)) implies #[trigger] q(
        rewrite_members(Pass::RequireAll, walk_members(Pass::RequireAll, m)),
    ) by {
        lemma_no_alternatives_local(Pass::RequireAll, m);
    }
    lemma_walk_every(Pass::RequireAll, d3, q, false);
}

/// After normalization every object whose `type` is `"object"` has
/// `additionalProperties` set to `false`.
pub proof fn lemma_normalize_closes_objects(d: Json)
    requires
        well_formed(d),
    ensures
        every_object(normalize(d), |m: Members| closed(m)),
{
    let q = |m: Members| closed(m);
    let d1 = walk(Pass::StripConstraints, d);
    let d2 = walk(Pass::UnifyAlternatives, d1);
    let d3 = walk(Pass::CloseObjects, d2);
    lemma_stages_well_formed(d);
    assert forall|m: Members| keys_unique(m) && values_well_formed(m) && (true || q(m)) implies #[trigger] q(
        rewrite_members(Pass::CloseObjects, walk_members(Pass::CloseObjects, m)),
    ) by {
        lemma_closed_local(Pass::CloseObjects, m);
    }
    lemma_walk_every(Pass::CloseObjects, d2, q, true);
    assert forall|m: Members| keys_unique(m) && values_well_formed(m) && (false || q(m)) implies #[trigger] q(
        rewrite_members(Pass::RequireAll, walk_members(Pass::RequireAll, m)),
    ) by {
        lemma_closed_local(Pass::RequireAll, m);
    }
    lemma_walk_every(Pass::RequireAll, d3, q, false);
}

/// After normalization every object that lists both `properties` and a
/// `required` array requires each of its properties.
pub proof fn lemma_normalize_requires_all(d: Json)
    requires
        well_formed(d),
    ensures
        every_object(normalize(d), |m: Members| all_required(m)),
{
    let q = |m: Members| all_required(m);
    let d3 = walk(
        Pass::CloseObjects,
        walk(Pass::UnifyAlternatives, walk(Pass::StripConstraints, d)),
    );
    lemma_stages_well_formed(d);
    assert forall|m: Members| keys_unique(m) && values_well_formed(m) && (true || q(m)) implies #[trigger] q(
        rewrite_members(Pass::RequireAll, walk_members(Pass::RequireAll, m)),
    ) by {
        lemma_all_required_local(m);
    }
    lemma_walk_every(Pass::RequireAll, d3, q, true);
}


/// `q2` follows from `q1` on every object of a well-formed document.
pub proof fn lemma_every_object_weaken(
    j: Json,
    q1: spec_fn(Members) -> bool,
    q2: spec_fn(Members) -> bool,
)
    requires
        well_formed(j),
        every_object(j, q1),
        forall|m: Members| keys_unique(m) && #[trigger] q1(m) ==> q2(m),
    ensures
        every_object(j, q2),
    decreases j,
{
    lemma_children_smaller(j);
    lemma_well_formed_parts(j);
    lemma_every_object_parts(j, q1);
    lemma_every_object_parts(j, q2);
    match j {
        Json::Array(s) => {
            assert forall|i: int| 0 <= i < s.len() implies #[trigger] every_object(s[i], q2) by {
                assert(decreases_to!(j => j->Array_0[i]));
                lemma_every_object_weaken(s[i], q1, q2);
            }
        },
        Json::Object(m) => {
            assert forall|i: int| 0 <= i < m.len() implies #[trigger] every_object(m[i].1, q2) by {
                assert(decreases_to!(j => j->Object_0[i].1));
                lemma_every_object_weaken(m[i].1, q1, q2);
            }
        },
        _ => {},
    }
}

/// A pass that changes no object changes nothing.
pub proof fn lemma_walk_identity(p: Pass, j: Json)
    requires
        well_formed(j),
        every_object(j, |m: Members| rewrite_members(p, m) == m),
    ensures
        walk(p, j) == j,
    decreases j,
{
    let q = |m: Members| rewrite_members(p, m) == m;
    lemma_children_smaller(j);
    lemma_well_formed_parts(j);
    lemma_every_object_parts(j, q);
    match j {
        Json::Array(s) => {
            assert forall|i: int| 0 <= i < s.len() implies #[trigger] walk(p, j)->Array_0[i] == s[i] by {
                assert(decreases_to!(j => j->Array_0[i]));
                lemma_walk_identity(p, s[i]);
            }
            assert(walk(p, j)->Array_0 =~= s);
        },
        Json::Object(m) => {
            lemma_walk_members(p, m);
            let w = walk_members(p, m);
            assert forall|i: int| 0 <= i < m.len() implies #[trigger] w[i] == m[i] by {
                assert(decreases_to!(j => j->Object_0[i].1));
                lemma_walk_identity(p, m[i].1);
            }
            assert(w =~= m);
        },
        _ => {},
    }
}

/// Stripping an object without constraint keywords changes nothing.
proof fn lemma_strip_identity(m: Members)
    requires
        no_constraint_keys(m),
    ensures
        strip_members(m) == m,
    decreases m.len(),
{
    reveal(Seq::filter);
    if m.len() > 0 {
        let d = m.drop_last();
        assert forall|k: Seq<char>| constraint_key(k) implies !#[trigger] has_key(d, k) by {
            if has_key(d, k) {
                let i = index_of(d, k);
                assert(m[i].0 == k);
                assert(has_key(m, k));
            }
        }
        lemma_strip_identity(d);
        if constraint_key(m.last().0) {
            assert(m[m.len() - 1].0 == m.last().0);
            assert(has_key(m, m.last().0));
        }
        assert(d.push(m.last()) =~= m);
    }
}

/// Nothing is appended when every name is already there.
proof fn lemma_add_missing_identity(rs: Seq<Json>, ps: Members)
    requires
        forall|i: int| 0 <= i < ps.len() ==> rs.contains(Json::Str(#[trigger] ps[i].0)),
    ensures
        add_missing(rs, ps) == rs,
    decreases ps.len(),
{
    if ps.len() > 0 {
        let d = ps.drop_last();
        assert forall|i: int| 0 <= i < d.len() implies rs.contains(Json::Str(#[trigger] d[i].0)) by {
            assert(d[i] == ps[i]);
        }
        lemma_add_missing_identity(rs, d);
        assert(ps[ps.len() - 1] == ps.last());
    }
}

/// Setting a key to the value it already has changes nothing.
proof fn lemma_insert_same(m: Members, k: Seq<char>, v: Json)
    requires
        keys_unique(m),
        lookup(m, k) == Some(v),
    ensures
        insert_key(m, k, v) == m,
{
    let i = index_of(m, k);
    assert(m.update(i, (k, v)) =~= m);
}

/// On a normalized object each rewrite changes nothing.
proof fn lemma_rewrite_identity(p: Pass, m: Members)
    requires
        keys_unique(m),
        no_constraint_keys(m),
        no_alternatives(m),
        closed(m),
        all_required(m),
    ensures
        rewrite_members(p, m) == m,
{
    match p {
        Pass::StripConstraints => lemma_strip_identity(m),
        Pass::UnifyAlternatives => {},
        Pass::CloseObjects => {
            if lookup(m, "type"@) == Some(Json::Str("object"@)) {
                lemma_insert_same(m, "additionalProperties"@, Json::Bool(false));
            }
        },
        Pass::RequireAll => {
            let lp = lookup(m, "properties"@);
            let lr = lookup(m, "required"@);
            if lp is Some && lp->Some_0 is Object && lr is Some && lr->Some_0 is Array {
                let ps = lp->Some_0->Object_0;
                let rs = lr->Some_0->Array_0;
                lemma_add_missing_identity(rs, ps);
                lemma_insert_same(m, "required"@, Json::Array(rs));
            }
        },
    }
}

/// Normalizing a normalized document changes nothing.
pub proof fn lemma_normalize_idempotent(d: Json)
    requires
        well_formed(d),
    ensures
        normalize(normalize(d)) == normalize(d),
{
    let n = normalize(d);
    lemma_stages_well_formed(d);
    lemma_normalize_removes_constraints(d);
    lemma_normalize_unifies_alternatives(d);
    lemma_normalize_closes_objects(d);
    lemma_normalize_requires_all(d);
    let all = |m: Members|
        no_constraint_keys(m) && no_alternatives(m) && closed(m) && all_required(m);
    lemma_every_object_all(n);
    assert forall|m: Members| keys_unique(m) && #[trigger] all(m) implies rewrite_members(Pass::StripConstraints, m) == m by {
        lemma_rewrite_identity(Pass::StripConstraints, m);
    }
    lemma_every_object_weaken(n, all, |m: Members| rewrite_members(Pass::StripConstraints, m) == m);
    lemma_walk_identity(Pass::StripConstraints, n);
    assert forall|m: Members| keys_unique(m) && #[trigger] all(m) implies rewrite_members(Pass::UnifyAlternatives, m) == m by {
        lemma_rewrite_identity(Pass::UnifyAlternatives, m);
    }
    lemma_every_object_weaken(n, all, |m: Members| rewrite_members(Pass::UnifyAlternatives, m) == m);
    lemma_walk_identity(Pass::UnifyAlternatives, n);
    assert forall|m: Members| keys_unique(m) && #[trigger] all(m) implies rewrite_members(Pass::CloseObjects, m) == m by {
        lemma_rewrite_identity(Pass::CloseObjects, m);
    }
    lemma_every_object_weaken(n, all, |m: Members| rewrite_members(Pass::CloseObjects, m) == m);
    lemma_walk_identity(Pass::CloseObjects, n);
    assert forall|m: Members| keys_unique(m) && #[trigger] all(m) implies rewrite_members(Pass::RequireAll, m) == m by {
        lemma_rewrite_identity(Pass::RequireAll, m);
    }
    lemma_every_object_weaken(n, all, |m: Members| rewrite_members(Pass::RequireAll, m) == m);
    lemma_walk_identity(Pass::RequireAll, n);
}

/// `every_object` of the four properties, one at a time, gives them together.
proof fn lemma_every_object_all(j: Json)
    requires
        well_formed(j),
        every_object(j, |m: Members| no_constraint_keys(m)),
        every_object(j, |m: Members| no_alternatives(m)),
        every_object(j, |m: Members| closed(m)),
        every_object(j, |m: Members| all_required(m)),
    ensures
        every_object(
            j,
            |m: Members| no_constraint_keys(m) && no_alternatives(m) && closed(m) && all_required(m),
        ),
    decreases j,
{
    let q1 = |m: Members| no_constraint_keys(m);
    let q2 = |m: Members| no_alternatives(m);
    let q3 = |m: Members| closed(m);
    let q4 = |m: Members| all_required(m);
    let all = |m: Members| no_constraint_keys(m) && no_alternatives(m) && closed(m) && all_required(m);
    lemma_children_smaller(j);
    lemma_well_formed_parts(j);
    lemma_every_object_parts(j, q1);
    lemma_every_object_parts(j, q2);
    lemma_every_object_parts(j, q3);
    lemma_every_object_parts(j, q4);
    lemma_every_object_parts(j, all);
    match j {
        Json::Array(s) => {
            assert forall|i: int| 0 <= i < s.len() implies #[trigger] every_object(s[i], all) by {
                assert(decreases_to!(j => j->Array_0[i]));
                lemma_every_object_all(s[i]);
            }
        },
        Json::Object(m) => {
            assert forall|i: int| 0 <= i < m.len() implies #[trigger] every_object(m[i].1, all) by {
                assert(decreases_to!(j => j->Object_0[i].1));
                lemma_every_object_all(m[i].1);
            }
        },
        _ => {},
    }
}


/// A key that some rewrite adds, moves, removes or changes.
pub open spec fn rewritten_key(k: Seq<char>) -> bool {
    constraint_key(k) || k == "oneOf"@ || k == "allOf"@ || k == "anyOf"@ || k
        == "additionalProperties"@ || k == "required"@
}

/// A pass keeps the kind of every value, leaves scalars as they are and maps
/// an array item by item, in order.
pub proof fn lemma_walk_shape(p: Pass, j: Json)
    ensures
        walk(p, j) is Array <==> j is Array,
        walk(p, j) is Object <==> j is Object,
        !(j is Array) && !(j is Object) ==> walk(p, j) == j,
        j is Array ==> walk(p, j)->Array_0.len() == j->Array_0.len() && forall|i: int|
            0 <= i < j->Array_0.len() ==> #[trigger] walk(p, j)->Array_0[i] == walk(p, j->Array_0[i]),
{
    lemma_children_smaller(j);
}

/// The whole pipeline keeps the kind of every value, leaves scalars as they
/// are, and maps an array item by item, keeping its length and order.
pub proof fn lemma_normalize_shape(d: Json)
    ensures
        normalize(d) is Array <==> d is Array,
        normalize(d) is Object <==> d is Object,
        !(d is Array) && !(d is Object) ==> normalize(d) == d,
        d is Array ==> normalize(d)->Array_0.len() == d->Array_0.len() && forall|i: int|
            0 <= i < d->Array_0.len() ==> #[trigger] normalize(d)->Array_0[i] == normalize(
                d->Array_0[i],
            ),
{
    let d1 = walk(Pass::StripConstraints, d);
    let d2 = walk(Pass::UnifyAlternatives, d1);
    let d3 = walk(Pass::CloseObjects, d2);
    lemma_walk_shape(Pass::StripConstraints, d);
    lemma_walk_shape(Pass::UnifyAlternatives, d1);
    lemma_walk_shape(Pass::CloseObjects, d2);
    lemma_walk_shape(Pass::RequireAll, d3);
}

/// A rewrite leaves every key that it does not target as it was.
proof fn lemma_rewrite_other_key(p: Pass, m: Members, k: Seq<char>)
    requires
        keys_unique(m),
        values_well_formed(m),
        !rewritten_key(k),
    ensures
        has_key(rewrite_members(p, m), k) == has_key(m, k),
        lookup(rewrite_members(p, m), k) == lookup(m, k),
{
    lemma_key_literals();
    let r = rewrite_members(p, m);
    match p {
        Pass::StripConstraints => {
            lemma_strip_members(m);
            if has_key(m, k) {
                let i = index_of(m, k);
                assert(keeps_member(m[i]));
                assert(r.contains(m[i]));
                let a = choose|a: int| 0 <= a < r.len() && r[a] == m[i];
                lemma_index_of(r, k, a);
            }
            if has_key(r, k) {
                let a = index_of(r, k);
                assert(m.contains(r[a]));
                let i = choose|i: int| 0 <= i < m.len() && m[i] == r[a];
                lemma_index_of(m, k, i);
            }
        },
        Pass::UnifyAlternatives => {
            lemma_rename_lookup(m, "oneOf"@, k);
            lemma_rename_keys(m, "oneOf"@);
            lemma_rename_lookup(rename_to_any_of(m, "oneOf"@), "allOf"@, k);
        },
        Pass::CloseObjects => {
            lemma_insert_other_keys(m, "additionalProperties"@, Json::Bool(false));
        },
        Pass::RequireAll => {
            if r != m {
                let rs = lookup(m, "required"@)->Some_0->Array_0;
                let ps = lookup(m, "properties"@)->Some_0->Object_0;
                lemma_insert_other_keys(m, "required"@, Json::Array(add_missing(rs, ps)));
            }
        },
    }
}

/// Moving `k` to `anyOf` leaves the value of every other key.
proof fn lemma_rename_lookup(m: Members, k: Seq<char>, k2: Seq<char>)
    requires
        keys_unique(m),
        k != "anyOf"@,
        k2 != k,
        k2 != "anyOf"@,
    ensures
        has_key(rename_to_any_of(m, k), k2) == has_key(m, k2),
        lookup(rename_to_any_of(m, k), k2) == lookup(m, k2),
{
    if has_key(m, k) {
        lemma_remove_other_keys(m, k);
        lemma_insert_other_keys(remove_key(m, k), "anyOf"@, m[index_of(m, k)].1);
    }
}

/// On an object, a pass keeps each untargeted key and walks its value.
proof fn lemma_walk_other_key(p: Pass, m: Members, k: Seq<char>)
    requires
        keys_unique(m),
        values_well_formed(m),
        !rewritten_key(k),
    ensures
        has_key(walk(p, Json::Object(m))->Object_0, k) == has_key(m, k),
        has_key(m, k) ==> lookup(walk(p, Json::Object(m))->Object_0, k) == Some(
            walk(p, m[index_of(m, k)].1),
        ),
{
    lemma_walk_members(p, m);
    lemma_walk_members_well_formed(p, m);
    lemma_rewrite_other_key(p, walk_members(p, m), k);
}

/// The whole pipeline keeps each key of an object that no rewrite targets
/// (`type` and `properties` among them) and normalizes the value under it.
pub proof fn lemma_normalize_keeps_other_keys(m: Members, k: Seq<char>)
    requires
        well_formed(Json::Object(m)),
        !rewritten_key(k),
    ensures
        has_key(normalize(Json::Object(m))->Object_0, k) == has_key(m, k),
        has_key(m, k) ==> lookup(normalize(Json::Object(m))->Object_0, k) == Some(
            normalize(m[index_of(m, k)].1),
        ),
{
    let d = Json::Object(m);
    let d1 = walk(Pass::StripConstraints, d);
    let d2 = walk(Pass::UnifyAlternatives, d1);
    let d3 = walk(Pass::CloseObjects, d2);
    lemma_stages_well_formed(d);
    lemma_walk_shape(Pass::StripConstraints, d);
    lemma_walk_shape(Pass::UnifyAlternatives, d1);
    lemma_walk_shape(Pass::CloseObjects, d2);
    lemma_well_formed_parts(d);
    lemma_well_formed_parts(d1);
    lemma_well_formed_parts(d2);
    lemma_well_formed_parts(d3);
    let m1 = d1->Object_0;
    let m2 = d2->Object_0;
    let m3 = d3->Object_0;
    lemma_walk_other_key(Pass::StripConstraints, m, k);
    lemma_walk_other_key(Pass::UnifyAlternatives, m1, k);
    lemma_walk_other_key(Pass::CloseObjects, m2, k);
    lemma_walk_other_key(Pass::RequireAll, m3, k);
    if has_key(m, k) {
        let v = m[index_of(m, k)].1;
        assert(lookup(m1, k) == Some(walk(Pass::StripConstraints, v)));
        assert(m1[index_of(m1, k)].1 == walk(Pass::StripConstraints, v));
        assert(m2[index_of(m2, k)].1 == walk(Pass::UnifyAlternatives, walk(Pass::StripConstraints, v)));
        assert(m3[index_of(m3, k)].1 == walk(
            Pass::CloseObjects,
            walk(Pass::UnifyAlternatives, walk(Pass::StripConstraints, v)),
        ));
    }
}


/// On one object, the union rewrite removes `oneOf` and `allOf` and puts the
/// value of the one handled last under `anyOf`, unchanged: that of `allOf`
/// when both are there.
pub proof fn lemma_unify_moves_alternative(m: Members)
    requires
        keys_unique(m),
    ensures
        !has_key(unify_members(m), "oneOf"@),
        !has_key(unify_members(m), "allOf"@),
        has_key(m, "allOf"@) ==> lookup(unify_members(m), "anyOf"@) == lookup(m, "allOf"@),
        has_key(m, "oneOf"@) && !has_key(m, "allOf"@) ==> lookup(unify_members(m), "anyOf"@)
            == lookup(m, "oneOf"@),
        !has_key(m, "oneOf"@) && !has_key(m, "allOf"@) ==> unify_members(m) == m,
{
    lemma_key_literals();
    let r1 = rename_to_any_of(m, "oneOf"@);
    lemma_rename_keys(m, "oneOf"@);
    lemma_rename_keys(r1, "allOf"@);
    lemma_rename_lookup(m, "oneOf"@, "allOf"@);
    if has_key(m, "oneOf"@) {
        lemma_remove_other_keys(m, "oneOf"@);
        lemma_insert_other_keys(remove_key(m, "oneOf"@), "anyOf"@, m[index_of(m, "oneOf"@)].1);
    }
    if has_key(r1, "allOf"@) {
        lemma_remove_other_keys(r1, "allOf"@);
        lemma_insert_other_keys(remove_key(r1, "allOf"@), "anyOf"@, r1[index_of(r1, "allOf"@)].1);
    }
}

} // verus!
