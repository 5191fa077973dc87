use vstd::prelude::*;

use crate::json::{
    index_of, insert_key, keys_unique, lemma_children_smaller, lemma_insert_key_unique,
    lemma_view_parts, lemma_well_formed_parts, members_view, well_formed, Json, JsonValue, Members,
};
use crate::rewrite::{
    add_missing, close_object_members, keeps_member, rename_to_any_of, require_all_members,
    rewrite_members, strip_constraint_members, strip_members, unify_alternative_members, walk,
    walk_members, Pass,
};

verus! {

/// Every member value of `m` is well formed.
pub open spec fn values_well_formed(m: Members) -> bool {
    forall|i: int| 0 <= i < m.len() ==> #[trigger] well_formed(m[i].1)
}

/// What stripping keeps: keys stay unique, values well formed, and the members
/// kept are exactly those of `m` whose key is no constraint keyword.
pub proof fn lemma_strip_members(m: Members)
    requires
        keys_unique(m),
        values_well_formed(m),
    ensures
        keys_unique(strip_members(m)),
        values_well_formed(strip_members(m)),
        forall|i: int| 0 <= i < strip_members(m).len() ==> m.contains(#[trigger] strip_members(m)[i]),
        forall|i: int| 0 <= i < strip_members(m).len() ==> keeps_member(#[trigger] strip_members(m)[i]),
        forall|i: int| 0 <= i < m.len() && keeps_member(m[i]) ==> strip_members(m).contains(#[trigger] m[i]),
    decreases m.len(),
{
    reveal(Seq::filter);
    if m.len() > 0 {
        let d = m.drop_last();
        assert(keys_unique(d));
        assert(values_well_formed(d));
        lemma_strip_members(d);
        let f = strip_members(d);
        assert forall|i: int| 0 <= i < f.len() implies m.contains(#[trigger] f[i]) by {
            assert(d.contains(f[i]));
            let k = choose|k: int| 0 <= k < d.len() && d[k] == f[i];
            assert(m[k] == f[i]);
        }
        assert forall|i: int| 0 <= i < m.len() && keeps_member(m[i]) implies strip_members(m).contains(#[trigger] m[i]) by {
            if i < d.len() {
                assert(m[i] == d[i]);
                assert(f.contains(d[i]));
                let k = choose|k: int| 0 <= k < f.len() && f[k] == d[i];
                if keeps_member(m.last()) {
                    assert(strip_members(m)[k] == f[k]);
                }
            } else {
                assert(m[i] == m.last());
                assert(strip_members(m)[f.len() as int] == m.last());
            }
        }
        if keeps_member(m.last()) {
            let r = f.push(m.last());
            assert(strip_members(m) == r);
            assert(m[m.len() - 1] == m.last());
            assert forall|i: int| 0 <= i < r.len() implies m.contains(#[trigger] r[i]) && keeps_member(r[i]) by {
                if i < f.len() {
                    assert(r[i] == f[i]);
                } else {
                    assert(r[i] == m[m.len() - 1]);
                }
            }
            assert forall|a: int, b: int|
                0 <= a < r.len() && 0 <= b < r.len() && a != b implies r[a].0 != r[b].0 by {
                if a == f.len() || b == f.len() {
                    let o = if a == f.len() {
                        b
                    } else {
                        a
                    };
                    assert(d.contains(f[o]));
                    let k = choose|k: int| 0 <= k < d.len() && d[k] == f[o];
                    assert(m[k] == f[o]);
                    assert(r[o] == f[o]);
                }
            }
            assert forall|i: int| 0 <= i < r.len() implies #[trigger] well_formed(r[i].1) by {
                if i < f.len() {
                    assert(r[i] == f[i]);
                } else {
                    assert(r[i] == m[m.len() - 1]);
                }
            }
        }
    }
}

pub proof fn lemma_insert_well_formed(m: Members, k: Seq<char>, v: Json)
    requires
        keys_unique(m),
        values_well_formed(m),
        well_formed(v),
    ensures
        keys_unique(insert_key(m, k, v)),
        values_well_formed(insert_key(m, k, v)),
{
    lemma_insert_key_unique(m, k, v);
    let r = insert_key(m, k, v);
    assert forall|i: int| 0 <= i < r.len() implies #[trigger] well_formed(r[i].1) by {
        if i < m.len() && r[i] != m[i] {
            assert(r[i].1 == v);
        }
    }
}

pub proof fn lemma_add_missing_well_formed(rs: Seq<Json>, ps: Members)
    requires
        forall|i: int| 0 <= i < rs.len() ==> #[trigger] well_formed(rs[i]),
    ensures
        forall|i: int|
            0 <= i < add_missing(rs, ps).len() ==> #[trigger] well_formed(add_missing(rs, ps)[i]),
    decreases ps.len(),
{
    if ps.len() > 0 {
        lemma_add_missing_well_formed(rs, ps.drop_last());
        let r = add_missing(rs, ps.drop_last());
        let name = Json::Str(ps.last().0);
        if !r.contains(name) {
            assert forall|i: int| 0 <= i < r.push(name).len() implies #[trigger] well_formed(
                r.push(name)[i],
            ) by {
                if i < r.len() {
                    assert(r.push(name)[i] == r[i]);
                }
            }
        }
    }
}

/// Each rewrite keeps keys unique and values well formed.
pub proof fn lemma_rewrite_well_formed(p: Pass, m: Members)
    requires
        keys_unique(m),
        values_well_formed(m),
    ensures
        keys_unique(rewrite_members(p, m)),
        values_well_formed(rewrite_members(p, m)),
{
    match p {
        Pass::StripConstraints => {
            lemma_strip_members(m);
        },
        Pass::UnifyAlternatives => {
            lemma_rename_well_formed(m, "oneOf"@);
            lemma_rename_well_formed(rename_to_any_of(m, "oneOf"@), "allOf"@);
        },
        Pass::CloseObjects => {
            lemma_insert_well_formed(m, "additionalProperties"@, Json::Bool(false));
        },
        Pass::RequireAll => {
            let lp = crate::json::lookup(m, "properties"@);
            let lr = crate::json::lookup(m, "required"@);
            if lp is Some && lp->Some_0 is Object && lr is Some && lr->Some_0 is Array {
                let ps = lp->Some_0->Object_0;
                let rs = lr->Some_0->Array_0;
                let i = index_of(m, "required"@);
                assert(well_formed(m[i].1));
                assert(m[i].1 == Json::Array(rs));
                lemma_well_formed_parts(Json::Array(rs));
                lemma_add_missing_well_formed(rs, ps);
                lemma_well_formed_parts(Json::Array(add_missing(rs, ps)));
                lemma_insert_well_formed(m, "required"@, Json::Array(add_missing(rs, ps)));
            }
        },
    }
}

pub proof fn lemma_rename_well_formed(m: Members, k: Seq<char>)
    requires
        keys_unique(m),
        values_well_formed(m),
    ensures
        keys_unique(rename_to_any_of(m, k)),
        values_well_formed(rename_to_any_of(m, k)),
{
    if crate::json::has_key(m, k) {
        let i = index_of(m, k);
        crate::json::lemma_remove_unique(m, i);
        let r = m.remove(i);
        assert(values_well_formed(r)) by {
            assert forall|a: int| 0 <= a < r.len() implies #[trigger] well_formed(r[a].1) by {
                if a < i {
                    assert(r[a] == m[a]);
                } else {
                    assert(r[a] == m[a + 1]);
                }
            }
        }
        assert(well_formed(m[i].1));
        lemma_insert_well_formed(r, "anyOf"@, m[i].1);
    }
}

/// Pass `p` on the members of one object.
fn rewrite_object(p: Pass, members: Vec<(String, JsonValue)>) -> (r: Vec<(String, JsonValue)>)
    requires
        keys_unique(members_view(members@)),
    ensures
        members_view(r@) == rewrite_members(p, members_view(members@)),
{
    match p {
        Pass::StripConstraints => strip_constraint_members(members),
        Pass::UnifyAlternatives => unify_alternative_members(members),
        Pass::CloseObjects => close_object_members(members),
        Pass::RequireAll => require_all_members(members),
    }
}

/// Applies pass `p` to every object of `v`, innermost first.
pub fn walk_value(p: Pass, v: JsonValue) -> (r: JsonValue)
    requires
        well_formed(v@),
    ensures
        r@ == walk(p, v@),
        well_formed(r@),
    decreases v,
{
    proof {
        lemma_well_formed_parts(v@);
        lemma_children_smaller(v@);
        lemma_view_parts(v);
    }
    match v {
        JsonValue::Array(items) => {
            let ghost items0 = items;
            let n = items.len();
            let mut rest = items;
            let mut out: Vec<JsonValue> = Vec::new();
            assert forall|j: int| 0 <= j < n implies #[trigger] well_formed(items0[j]@) by {
                assert(v@->Array_0[j] == items0[j]@);
            }
            while rest.len() > 0
                invariant
                    rest.len() + out.len() == n,
                    items0.len() == n,
                    v == JsonValue::Array(items0),
                    forall|j: int| 0 <= j < n ==> #[trigger] well_formed(items0[j]@),
                    forall|j: int| 0 <= j < rest.len() ==> rest[j] == items0[j],
                    forall|j: int|
                        0 <= j < out.len() ==> out[j]@ == walk(p, items0[rest.len() + j]@)
                            && well_formed(#[trigger] out[j]@),
                decreases rest.len(),
            {
                let x = rest.pop().unwrap();
                proof {
                    assert(decreases_to!(v => v->Array_0));
                    assert(decreases_to!(items0 => items0[rest.len() as int]));
                }
                let y = walk_value(p, x);
                out.insert(0, y);
            }
            let r = JsonValue::Array(out);
            proof {
                lemma_view_parts(r);
            }
            assert forall|i: int| 0 <= i < n implies walk(p, v@)->Array_0[i] == walk(
                p,
                #[trigger] items0[i]@,
            ) by {
                assert(v@->Array_0[i] == items0[i]@);
                assert(decreases_to!(v@ => v@->Array_0[i]));
            }
            assert(r@->Array_0 =~= walk(p, v@)->Array_0);
            assert(r@ == walk(p, v@));
            proof {
                lemma_well_formed_parts(r@);
            }
            r
        },
        JsonValue::Object(members) => {
            let ghost members0 = members;
            let ghost m0 = v@->Object_0;
            let n = members.len();
            let mut rest = members;
            let mut out: Vec<(String, JsonValue)> = Vec::new();
            assert forall|j: int| 0 <= j < n implies #[trigger] well_formed(members0[j].1@) by {
                assert(m0[j].1 == members0[j].1@);
            }
            while rest.len() > 0
                invariant
                    rest.len() + out.len() == n,
                    members0.len() == n,
                    v == JsonValue::Object(members0),
                    forall|j: int| 0 <= j < n ==> #[trigger] well_formed(members0[j].1@),
                    forall|j: int| 0 <= j < rest.len() ==> rest[j] == members0[j],
                    forall|j: int|
                        0 <= j < out.len() ==> out[j].0 == members0[rest.len() + j].0 && out[j].1@
                            == walk(p, members0[rest.len() + j].1@) && well_formed(
                            #[trigger] out[j].1@,
                        ),
                decreases rest.len(),
            {
                let (k, x) = rest.pop().unwrap();
                proof {
                    let e = members0[rest.len() as int];
                    assert(decreases_to!(v => v->Object_0));
                    assert(decreases_to!(members0 => e));
                    assert(decreases_to!(e => e.1));
                }
                let y = walk_value(p, x);
                out.insert(0, (k, y));
            }
            let ghost walked = members_view(out@);
            assert forall|i: int| 0 <= i < n implies #[trigger] walk_members(p, m0)[i] == walked[i] by {
                assert(decreases_to!(m0 => m0[i]));
                assert(decreases_to!(m0[i] => m0[i].1));
            }
            assert(walked =~= walk_members(p, m0));
            assert(keys_unique(walked)) by {
                assert forall|a: int, b: int|
                    0 <= a < walked.len() && 0 <= b < walked.len() && a != b implies walked[a].0
                    != walked[b].0 by {
                    assert(walked[a].0 == m0[a].0 && walked[b].0 == m0[b].0);
                }
            }
            let rewritten = rewrite_object(p, out);
            proof {
                lemma_rewrite_well_formed(p, walked);
            }
            let r = JsonValue::Object(rewritten);
            proof {
                lemma_view_parts(r);
            }
            assert(r@->Object_0 =~= members_view(rewritten@));
            assert(r@ == walk(p, v@));
            proof {
                lemma_well_formed_parts(r@);
            }
            r
        },
        other => {
            assert(other@ == walk(p, v@));
            other
        },
    }
}

} // verus!
