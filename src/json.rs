//! A generic JSON document tree and its mathematical model.
use vstd::prelude::*;

verus! {

/// The mathematical model of a JSON value. Object members keep their order.
pub enum Json {
    Null,
    Bool(bool),
    Number(Seq<char>),
    Str(Seq<char>),
    Array(Seq<Json>),
    Object(Seq<(Seq<char>, Json)>),
}

/// A JSON value as held in memory. Numbers keep their textual form.
#[derive(Debug, PartialEq)]
pub enum JsonValue {
    Null,
    Bool(bool),
    Number(String),
    Str(String),
    Array(Vec<JsonValue>),
    Object(Vec<(String, JsonValue)>),
}

impl JsonValue {
    /// The model of the value.
    pub open spec fn view(&self) -> Json
        decreases self,
    {
        match self {
            JsonValue::Null => Json::Null,
            JsonValue::Bool(b) => Json::Bool(*b),
            JsonValue::Number(n) => Json::Number(n@),
            JsonValue::Str(s) => Json::Str(s@),
            JsonValue::Array(items) => Json::Array(
                Seq::new(
                    items@.len(),
                    |i: int|
                        if 0 <= i < items@.len() {
                            items@[i].view()
                        } else {
                            Json::Null
                        },
                ),
            ),
            JsonValue::Object(members) => Json::Object(
                Seq::new(
                    members@.len(),
                    |i: int|
                        if 0 <= i < members@.len() {
                            (members@[i].0@, members@[i].1.view())
                        } else {
                            (Seq::empty(), Json::Null)
                        },
                ),
            ),
        }
    }
}

/// The node reached from `j` by following `path`: at each step, a position in
/// an array or in an object's member list.
pub open spec fn node_at(j: Json, path: Seq<int>) -> Option<Json>
    decreases path.len(),
{
    if path.len() == 0 {
        Some(j)
    } else {
        let i = path[0];
        match j {
            Json::Array(items) => if 0 <= i < items.len() {
                node_at(items[i], path.drop_first())
            } else {
                None
            },
            Json::Object(m) => if 0 <= i < m.len() {
                node_at(m[i].1, path.drop_first())
            } else {
                None
            },
            _ => None,
        }
    }
}

/// No two members share a name.
pub open spec fn names_unique(m: Seq<(Seq<char>, Json)>) -> bool {
    forall|i: int, j: int| 0 <= i < j < m.len() ==> m[i].0 != m[j].0
}

/// No object anywhere in the tree has two members with one name.
pub open spec fn all_names_unique(j: Json) -> bool {
    forall|path: Seq<int>|
        #[trigger] node_at(j, path) matches Some(Json::Object(m)) ==> names_unique(m)
}

/// The model of the members of an object, in order.
pub open spec fn members_view(m: Seq<(String, JsonValue)>) -> Seq<(Seq<char>, Json)> {
    Seq::new(m.len(), |i: int| (m[i].0@, m[i].1@))
}

/// `i` is the position of the first member named `k`.
pub open spec fn is_first_key(m: Seq<(Seq<char>, Json)>, k: Seq<char>, i: int) -> bool {
    &&& 0 <= i < m.len()
    &&& m[i].0 == k
    &&& forall|j: int| 0 <= j < i ==> m[j].0 != k
}

/// The position of the first member named `k`, or -1 when there is none.
pub open spec fn key_index(m: Seq<(Seq<char>, Json)>, k: Seq<char>) -> int {
    if exists|i: int| is_first_key(m, k, i) {
        choose|i: int| is_first_key(m, k, i)
    } else {
        -1
    }
}

/// The value of the member named `k`.
pub open spec fn member(m: Seq<(Seq<char>, Json)>, k: Seq<char>) -> Option<Json> {
    let i = key_index(m, k);
    if i >= 0 {
        Some(m[i].1)
    } else {
        None
    }
}

/// The members after setting `k` to `v`: an existing member keeps its place, a new one goes last.
pub open spec fn with_member(m: Seq<(Seq<char>, Json)>, k: Seq<char>, v: Json) -> Seq<(Seq<char>, Json)> {
    let i = key_index(m, k);
    if i >= 0 {
        m.update(i, (k, v))
    } else {
        m.push((k, v))
    }
}

/// The member names, in order.
pub open spec fn names_of(m: Seq<(Seq<char>, Json)>) -> Seq<Seq<char>> {
    m.map_values(|e: (Seq<char>, Json)| e.0)
}

/// The names after setting `k`: unchanged when `k` was there, else `k` added last.
pub proof fn lemma_names_with_member(m: Seq<(Seq<char>, Json)>, k: Seq<char>, v: Json)
    ensures
        names_of(with_member(m, k, v)) == (if key_index(m, k) >= 0 {
            names_of(m)
        } else {
            names_of(m).push(k)
        }),
{
    lemma_key_index(m, k);
    if key_index(m, k) >= 0 {
        assert(names_of(with_member(m, k, v)) =~= names_of(m));
    } else {
        assert(names_of(with_member(m, k, v)) =~= names_of(m).push(k));
    }
}

/// The model of an object is the model of its members.
pub proof fn lemma_object_view(m: Vec<(String, JsonValue)>)
    ensures
        JsonValue::Object(m)@ == Json::Object(members_view(m@)),
{
    if let Json::Object(s) = JsonValue::Object(m)@ {
        assert(s =~= members_view(m@));
    }
}

/// The model of an array is the model of each item.
pub proof fn lemma_array_view(items: Vec<JsonValue>)
    ensures
        JsonValue::Array(items)@ == Json::Array(items@.map_values(|v: JsonValue| v@)),
{
    if let Json::Array(s) = JsonValue::Array(items)@ {
        assert(s =~= items@.map_values(|v: JsonValue| v@));
    }
}

/// What `key_index` is: the first position of `k`, or -1 when `k` is absent.
pub proof fn lemma_key_index(m: Seq<(Seq<char>, Json)>, k: Seq<char>)
    ensures
        -1 <= key_index(m, k) < m.len(),
        key_index(m, k) >= 0 ==> is_first_key(m, k, key_index(m, k)),
        key_index(m, k) == -1 <==> forall|i: int| 0 <= i < m.len() ==> m[i].0 != k,
        forall|i: int| is_first_key(m, k, i) ==> key_index(m, k) == i,
{
    if exists|i: int| is_first_key(m, k, i) {
        let c = choose|i: int| is_first_key(m, k, i);
        assert forall|i: int| is_first_key(m, k, i) implies c == i by {
            if c < i {
                assert(m[c].0 == k);
            } else if i < c {
                assert(m[i].0 == k);
            }
        }
    } else {
        assert forall|i: int| 0 <= i < m.len() implies m[i].0 != k by {
            if m[i].0 == k {
                lemma_first_exists(m, k, i);
            }
        }
    }
}

/// A position holding `k` means a first one exists.
proof fn lemma_first_exists(m: Seq<(Seq<char>, Json)>, k: Seq<char>, i: int)
    requires
        0 <= i < m.len(),
        m[i].0 == k,
    ensures
        exists|f: int| is_first_key(m, k, f),
    decreases i,
{
    if exists|j: int| 0 <= j < i && m[j].0 == k {
        let j = choose|j: int| 0 <= j < i && m[j].0 == k;
        lemma_first_exists(m, k, j);
    } else {
        assert(is_first_key(m, k, i));
    }
}

/// Two member lists with the same names in the same order find each name at
/// the same place.
pub proof fn lemma_same_names_key_index(
    a: Seq<(Seq<char>, Json)>,
    b: Seq<(Seq<char>, Json)>,
    k: Seq<char>,
)
    requires
        a.len() == b.len(),
        forall|i: int| 0 <= i < a.len() ==> a[i].0 == b[i].0,
    ensures
        key_index(a, k) == key_index(b, k),
{
    lemma_key_index(a, k);
    lemma_key_index(b, k);
    let i = key_index(a, k);
    if i >= 0 {
        assert(is_first_key(b, k, i));
    } else {
        assert forall|j: int| 0 <= j < b.len() implies b[j].0 != k by {
            assert(a[j].0 != k);
        }
    }
}

/// Setting a member to the value it already holds changes nothing.
pub proof fn lemma_with_member_present(m: Seq<(Seq<char>, Json)>, k: Seq<char>, v: Json)
    requires
        member(m, k) == Some(v),
    ensures
        with_member(m, k, v) == m,
{
    lemma_key_index(m, k);
    assert(with_member(m, k, v) =~= m);
}

/// Setting `k` leaves every other name where it was.
pub proof fn lemma_with_member_other(
    m: Seq<(Seq<char>, Json)>,
    k: Seq<char>,
    v: Json,
    k2: Seq<char>,
)
    requires
        k != k2,
    ensures
        key_index(with_member(m, k, v), k2) == key_index(m, k2),
        member(with_member(m, k, v), k2) == member(m, k2),
{
    let n = with_member(m, k, v);
    lemma_key_index(m, k);
    lemma_key_index(m, k2);
    lemma_key_index(n, k2);
    let i = key_index(m, k2);
    if i >= 0 {
        assert(is_first_key(n, k2, i));
    } else {
        assert forall|j: int| 0 <= j < n.len() implies n[j].0 != k2 by {
            if j < m.len() {
            }
        }
    }
}

/// Setting `k` makes `v` its value, in the old place or last.
pub proof fn lemma_with_member_same(m: Seq<(Seq<char>, Json)>, k: Seq<char>, v: Json)
    ensures
        member(with_member(m, k, v), k) == Some(v),
        key_index(with_member(m, k, v), k) == (if key_index(m, k) >= 0 {
            key_index(m, k)
        } else {
            m.len() as int
        }),
{
    let n = with_member(m, k, v);
    lemma_key_index(m, k);
    lemma_key_index(n, k);
    if key_index(m, k) >= 0 {
        assert(is_first_key(n, k, key_index(m, k)));
    } else {
        assert(is_first_key(n, k, m.len() as int));
    }
}

/// The member names and type names that the patches use are distinct.
pub proof fn lemma_names_distinct()
    ensures
        "type"@ != "nullable"@,
        "type"@ != "additionalProperties"@,
        "type"@ != "properties"@,
        "nullable"@ != "additionalProperties"@,
        "nullable"@ != "properties"@,
        "properties"@ != "additionalProperties"@,
        "object"@ != "string"@,
        "components"@ != "schemas"@,
{
    reveal_strlit("type");
    reveal_strlit("nullable");
    reveal_strlit("additionalProperties");
    reveal_strlit("properties");
    reveal_strlit("object");
    reveal_strlit("string");
    reveal_strlit("components");
    reveal_strlit("schemas");
    assert("type"@.len() != "nullable"@.len());
    assert("type"@.len() != "additionalProperties"@.len());
    assert("type"@.len() != "properties"@.len());
    assert("nullable"@.len() != "additionalProperties"@.len());
    assert("nullable"@.len() != "properties"@.len());
    assert("properties"@.len() != "additionalProperties"@.len());
    assert("object"@[0] != "string"@[0]);
    assert("components"@.len() != "schemas"@.len());
}

/// Finds the first member named `key`.
pub fn find_member(m: &Vec<(String, JsonValue)>, key: &String) -> (r: Option<usize>)
    ensures
        match r {
            Some(i) => i as int == key_index(members_view(m@), key@),
            None => key_index(members_view(m@), key@) == -1,
        },
{
    let ghost mv = members_view(m@);
    let mut i: usize = 0;
    while i < m.len()
        invariant
            0 <= i <= m@.len(),
            mv == members_view(m@),
            forall|j: int| 0 <= j < i ==> mv[j].0 != key@,
        decreases m@.len() - i,
    {
        if m[i].0 == *key {
            proof {
                assert(is_first_key(mv, key@, i as int));
                let c = choose|c: int| is_first_key(mv, key@, c);
                assert(c == i as int) by {
                    if c < i {
                        assert(mv[c].0 != key@);
                    } else if c > i {
                        assert(mv[i as int].0 == key@);
                    }
                }
            }
            return Some(i);
        }
        i = i + 1;
    }
    proof {
        assert forall|c: int| !is_first_key(mv, key@, c) by {
            if 0 <= c < mv.len() {
                assert(mv[c].0 != key@);
            }
        }
    }
    None
}

/// Sets the member named `key` to `value`, in place where it exists and last otherwise.
pub fn set_member(m: &mut Vec<(String, JsonValue)>, key: String, value: JsonValue)
    ensures
        members_view(final(m)@) == with_member(members_view(old(m)@), key@, value@),
{
    let ghost k = key@;
    let ghost v = value@;
    match find_member(m, &key) {
        Some(i) => {
            m.set(i, (key, value));
            assert(members_view(m@) =~= with_member(members_view(old(m)@), k, v));
        },
        None => {
            m.push((key, value));
            assert(members_view(m@) =~= with_member(members_view(old(m)@), k, v));
        },
    }
}

} // verus!
