use vstd::prelude::*;

verus! {

/// A JSON number is carried through unchanged: no rewrite ever inspects one.
#[verifier::external_type_specification]
#[verifier::external_body]
pub struct ExNumber(serde_json::Number);

/// The mathematical model of a JSON document.
pub enum Json {
    Null,
    Bool(bool),
    Number(serde_json::Number),
    Str(Seq<char>),
    Array(Seq<Json>),
    Object(Seq<(Seq<char>, Json)>),
}

/// The members of a JSON object, in order.
pub type Members = Seq<(Seq<char>, Json)>;

/// An executable JSON document. An object keeps its members in a vector.
#[derive(Debug, PartialEq)]
pub enum JsonValue {
    Null,
    Bool(bool),
    Number(serde_json::Number),
    String(String),
    Array(Vec<JsonValue>),
    Object(Vec<(String, JsonValue)>),
}

impl JsonValue {
    pub open spec fn view(&self) -> Json
        decreases self,
    {
        match self {
            JsonValue::Null => Json::Null,
            JsonValue::Bool(b) => Json::Bool(*b),
            JsonValue::Number(n) => Json::Number(*n),
            JsonValue::String(s) => Json::Str(s@),
            JsonValue::Array(items) => Json::Array(
                Seq::new(
                    items.len() as nat,
                    |i: int|
                        if 0 <= i < items.len() {
                            items[i].view()
                        } else {
                            Json::Null
                        },
                ),
            ),
            JsonValue::Object(members) => Json::Object(
                Seq::new(
                    members.len() as nat,
                    |i: int|
                        if 0 <= i < members.len() {
                            (members[i].0@, members[i].1.view())
                        } else {
                            (Seq::empty(), Json::Null)
                        },
                ),
            ),
        }
    }
}

/// The model of a vector of members.
pub open spec fn members_view(members: Seq<(String, JsonValue)>) -> Members {
    Seq::new(members.len(), |i: int| (members[i].0@, members[i].1@))
}

/// The model of a vector of values.
pub open spec fn items_view(items: Seq<JsonValue>) -> Seq<Json> {
    Seq::new(items.len(), |i: int| items[i]@)
}

pub open spec fn has_key(m: Members, k: Seq<char>) -> bool {
    exists|i: int| 0 <= i < m.len() && m[i].0 == k
}

/// Where key `k` stands in `m` (meaningful when `has_key(m, k)`).
pub open spec fn index_of(m: Members, k: Seq<char>) -> int {
    choose|i: int| 0 <= i < m.len() && m[i].0 == k
}

pub open spec fn lookup(m: Members, k: Seq<char>) -> Option<Json> {
    if has_key(m, k) {
        Some(m[index_of(m, k)].1)
    } else {
        None
    }
}

pub open spec fn remove_key(m: Members, k: Seq<char>) -> Members {
    if has_key(m, k) {
        m.remove(index_of(m, k))
    } else {
        m
    }
}

/// Sets key `k` to `v`: in place when the key is there, at the end otherwise.
pub open spec fn insert_key(m: Members, k: Seq<char>, v: Json) -> Members {
    if has_key(m, k) {
        m.update(index_of(m, k), (k, v))
    } else {
        m.push((k, v))
    }
}

pub open spec fn keys_unique(m: Members) -> bool {
    forall|i: int, j: int| 0 <= i < m.len() && 0 <= j < m.len() && i != j ==> m[i].0 != m[j].0
}

/// Every object anywhere in `j` has pairwise distinct keys.
pub open spec fn well_formed(j: Json) -> bool
    decreases j,
{
    match j {
        Json::Array(s) => forall|i: int| 0 <= i < s.len() ==> well_formed(#[trigger] s[i]),
        Json::Object(m) => keys_unique(m) && forall|i: int|
            0 <= i < m.len() ==> well_formed(#[trigger] m[i].1),
        _ => true,
    }
}

/// The view one level down.
pub proof fn lemma_view_parts(v: JsonValue)
    ensures
        v is Array ==> v@ == Json::Array(items_view(v->Array_0@)),
        v is Object ==> v@ == Json::Object(members_view(v->Object_0@)),
{
    if v is Array {
        let items = v->Array_0;
        assert forall|i: int| 0 <= i < items.len() implies v@->Array_0[i] == #[trigger] items[i]@ by {
            assert(decreases_to!(v => v->Array_0));
            assert(decreases_to!(items => items[i]));
        }
        assert(v@->Array_0 =~= items_view(items@));
    }
    if v is Object {
        let members = v->Object_0;
        assert forall|i: int| 0 <= i < members.len() implies v@->Object_0[i] == (
        members[i].0@,
        #[trigger] members[i].1@,
        ) by {
            assert(decreases_to!(v => v->Object_0));
            assert(decreases_to!(members => members[i]));
            assert(decreases_to!(members[i] => members[i].1));
        }
        assert(v@->Object_0 =~= members_view(members@));
    }
}

/// The children of an array or an object are smaller than it.
pub proof fn lemma_children_smaller(j: Json)
    ensures
        j is Array ==> forall|i: int|
            0 <= i < j->Array_0.len() ==> #[trigger] decreases_to!(j => j->Array_0[i]),
        j is Object ==> forall|i: int|
            0 <= i < j->Object_0.len() ==> #[trigger] decreases_to!(j => j->Object_0[i].1),
{
    if j is Array {
        let s = j->Array_0;
        assert forall|i: int| 0 <= i < s.len() implies #[trigger] decreases_to!(j => s[i]) by {
            assert(decreases_to!(j => j->Array_0));
            assert(decreases_to!(s => s[i]));
        }
    }
    if j is Object {
        let m = j->Object_0;
        assert forall|i: int| 0 <= i < m.len() implies #[trigger] decreases_to!(j => m[i].1) by {
            assert(decreases_to!(j => j->Object_0));
            assert(decreases_to!(m => m[i]));
            assert(decreases_to!(m[i] => m[i].1));
        }
    }
}

/// `well_formed` one level down.
pub proof fn lemma_well_formed_parts(j: Json)
    ensures
        j is Array ==> (well_formed(j) <==> forall|i: int|
            0 <= i < j->Array_0.len() ==> #[trigger] well_formed(j->Array_0[i])),
        j is Object ==> (well_formed(j) <==> keys_unique(j->Object_0) && forall|i: int|
            0 <= i < j->Object_0.len() ==> #[trigger] well_formed(j->Object_0[i].1)),
{
    lemma_children_smaller(j);
    if j is Array {
        let s = j->Array_0;
        if well_formed(j) {
            assert forall|i: int| 0 <= i < s.len() implies #[trigger] well_formed(s[i]) by {
                assert(decreases_to!(j => j->Array_0[i]));
            }
        }
        if forall|i: int| 0 <= i < s.len() ==> #[trigger] well_formed(s[i]) {
            assert forall|i: int| 0 <= i < s.len() implies well_formed(#[trigger] s[i]) by {
                assert(decreases_to!(j => j->Array_0[i]));
            }
        }
    }
    if j is Object {
        let m = j->Object_0;
        if well_formed(j) {
            assert forall|i: int| 0 <= i < m.len() implies #[trigger] well_formed(m[i].1) by {
                assert(decreases_to!(j => j->Object_0[i].1));
            }
        }
        if forall|i: int| 0 <= i < m.len() ==> #[trigger] well_formed(m[i].1) {
            assert forall|i: int| 0 <= i < m.len() implies well_formed(#[trigger] m[i].1) by {
                assert(decreases_to!(j => j->Object_0[i].1));
            }
        }
    }
}

pub proof fn lemma_remove_unique(m: Members, i: int)
    requires
        keys_unique(m),
        0 <= i < m.len(),
    ensures
        keys_unique(m.remove(i)),
{
    let r = m.remove(i);
    assert forall|a: int, b: int| 0 <= a < r.len() && 0 <= b < r.len() && a != b implies r[a].0
        != r[b].0 by {
        let a0 = if a < i {
            a
        } else {
            a + 1
        };
        let b0 = if b < i {
            b
        } else {
            b + 1
        };
        assert(r[a] == m[a0] && r[b] == m[b0]);
    }
}

pub proof fn lemma_insert_key_unique(m: Members, k: Seq<char>, v: Json)
    requires
        keys_unique(m),
    ensures
        keys_unique(insert_key(m, k, v)),
        has_key(insert_key(m, k, v), k),
        lookup(insert_key(m, k, v), k) == Some(v),
        forall|k2: Seq<char>| k2 != k ==> lookup(#[trigger] insert_key(m, k, v), k2) == lookup(m, k2),
{
    let r = insert_key(m, k, v);
    if has_key(m, k) {
        let i = index_of(m, k);
        lemma_index_of(r, k, i);
        assert forall|k2: Seq<char>| k2 != k implies lookup(r, k2) == lookup(m, k2) by {
            if has_key(m, k2) {
                let j = index_of(m, k2);
                lemma_index_of(r, k2, j);
            }
            if has_key(r, k2) {
                let j = index_of(r, k2);
                lemma_index_of(m, k2, j);
            }
        }
    } else {
        lemma_index_of(r, k, m.len() as int);
        assert forall|k2: Seq<char>| k2 != k implies lookup(r, k2) == lookup(m, k2) by {
            if has_key(m, k2) {
                let j = index_of(m, k2);
                lemma_index_of(r, k2, j);
            }
            if has_key(r, k2) {
                let j = index_of(r, k2);
                lemma_index_of(m, k2, j);
            }
        }
    }
}

pub proof fn lemma_index_of(m: Members, k: Seq<char>, i: int)
    requires
        keys_unique(m),
        0 <= i < m.len(),
        m[i].0 == k,
    ensures
        has_key(m, k),
        index_of(m, k) == i,
        lookup(m, k) == Some(m[i].1),
{
}

/// The position of key `k` among `members`, if it is there.
pub fn find_key(members: &Vec<(String, JsonValue)>, k: &str) -> (r: Option<usize>)
    requires
        keys_unique(members_view(members@)),
    ensures
        match r {
            Some(i) => i < members.len() && members[i as int].0@ == k@ && index_of(
                members_view(members@),
                k@,
            ) == i && has_key(members_view(members@), k@),
            None => !has_key(members_view(members@), k@),
        },
{
    let key = k.to_owned();
    let mut i: usize = 0;
    while i < members.len()
        invariant
            key@ == k@,
            keys_unique(members_view(members@)),
            forall|j: int| 0 <= j < i ==> members[j].0@ != k@,
        decreases members.len() - i,
    {
        if members[i].0 == key {
            proof {
                lemma_index_of(members_view(members@), k@, i as int);
            }
            return Some(i);
        }
        i = i + 1;
    }
    assert(!has_key(members_view(members@), k@)) by {
        if has_key(members_view(members@), k@) {
            let j = choose|j: int| 0 <= j < members@.len() && members_view(members@)[j].0 == k@;
            assert(members[j].0@ == k@);
        }
    }
    None
}


/// Whether the keys of `members` are pairwise distinct.
fn keys_distinct(members: &Vec<(String, JsonValue)>) -> (r: bool)
    ensures
        r == keys_unique(members_view(members@)),
{
    let ghost m = members_view(members@);
    let n = members.len();
    let mut i: usize = 0;
    while i < n
        invariant
            n == members.len(),
            m == members_view(members@),
            forall|a: int, b: int| 0 <= a < i && 0 <= b < n && a != b ==> m[a].0 != m[b].0,
        decreases n - i,
    {
        let mut j: usize = 0;
        while j < n
            invariant
                n == members.len(),
                i < n,
                m == members_view(members@),
                forall|a: int, b: int| 0 <= a < i && 0 <= b < n && a != b ==> m[a].0 != m[b].0,
                forall|b: int| 0 <= b < j && b != i ==> m[i as int].0 != m[b].0,
            decreases n - j,
        {
            if j != i && members[i].0 == members[j].0 {
                assert(m[i as int].0 == m[j as int].0);
                return false;
            }
            j = j + 1;
        }
        i = i + 1;
    }
    true
}

impl JsonValue {
    /// Whether every object anywhere in the document has distinct keys.
    pub fn is_well_formed(&self) -> (r: bool)
        ensures
            r == well_formed(self@),
        decreases self,
    {
        proof {
            lemma_view_parts(*self);
            lemma_well_formed_parts(self@);
        }
        match self {
            JsonValue::Array(items) => {
                let mut i: usize = 0;
                while i < items.len()
                    invariant
                        *self == JsonValue::Array(*items),
                        forall|j: int| 0 <= j < i ==> #[trigger] well_formed(items[j]@),
                    decreases items.len() - i,
                {
                    proof {
                        assert(decreases_to!(*self => self->Array_0));
                        assert(decreases_to!(self->Array_0 => self->Array_0[i as int]));
                    }
                    if !items[i].is_well_formed() {
                        assert(self@->Array_0[i as int] == items[i as int]@);
                        assert(!well_formed(self@->Array_0[i as int]));
                        return false;
                    }
                    i = i + 1;
                }
                assert forall|j: int| 0 <= j < items.len() implies #[trigger] well_formed(
                    items_view(items@)[j],
                ) by {
                    assert(items_view(items@)[j] == items[j]@);
                }
                true
            },
            JsonValue::Object(members) => {
                if !keys_distinct(members) {
                    return false;
                }
                let mut i: usize = 0;
                while i < members.len()
                    invariant
                        *self == JsonValue::Object(*members),
                        forall|j: int| 0 <= j < i ==> #[trigger] well_formed(members[j].1@),
                    decreases members.len() - i,
                {
                    proof {
                        let e = self->Object_0[i as int];
                        assert(decreases_to!(*self => self->Object_0));
                        assert(decreases_to!(self->Object_0 => e));
                        assert(decreases_to!(e => e.1));
                    }
                    if !members[i].1.is_well_formed() {
                        assert(self@->Object_0[i as int].1 == members[i as int].1@);
                        assert(!well_formed(self@->Object_0[i as int].1));
                        return false;
                    }
                    i = i + 1;
                }
                assert forall|j: int| 0 <= j < members.len() implies #[trigger] well_formed(
                    members_view(members@)[j].1,
                ) by {
                    assert(members_view(members@)[j].1 == members[j].1@);
                }
                true
            },
            _ => true,
        }
    }
}

} // verus!
