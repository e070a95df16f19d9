//! The structural patch: every object schema whose additional properties are plain
//! strings, at any depth, becomes a nullable map of nullable strings.
use crate::json::{
    find_member, key_index, lemma_array_view, lemma_key_index, lemma_names_distinct,
    lemma_object_view, lemma_same_names_key_index, lemma_with_member_other,
    lemma_with_member_same, member, members_view, node_at, set_member, with_member, Json,
    JsonValue,
};
use vstd::prelude::*;

verus! {

/// The two-element type set `["string", "null"]`.
pub open spec fn string_or_null() -> Json {
    Json::Array(seq![Json::Str("string"@), Json::Str("null"@)])
}

/// An object schema whose additional-properties child is an object typed `"string"`.
pub open spec fn is_string_map(m: Seq<(Seq<char>, Json)>) -> bool {
    &&& member(m, "type"@) == Some(Json::Str("object"@))
    &&& match member(m, "additionalProperties"@) {
        Some(Json::Object(ap)) => member(ap, "type"@) == Some(Json::Str("string"@)),
        _ => false,
    }
}

/// Marks a map nullable and lets each of its string values be null.
pub open spec fn mark_string_map(m: Seq<(Seq<char>, Json)>) -> Seq<(Seq<char>, Json)> {
    let m1 = with_member(m, "nullable"@, Json::Bool(true));
    match member(m1, "additionalProperties"@) {
        Some(Json::Object(ap)) => with_member(
            m1,
            "additionalProperties"@,
            Json::Object(with_member(ap, "type"@, string_or_null())),
        ),
        _ => m1,
    }
}

/// The tree after the structural patch: children are patched, and a node that
/// matched the pattern before is then marked.
pub open spec fn fix_string_maps(j: Json) -> Json
    decreases j,
{
    match j {
        Json::Array(items) => Json::Array(fix_items(items)),
        Json::Object(m) => if is_string_map(m) {
            Json::Object(mark_string_map(fix_members(m)))
        } else {
            Json::Object(fix_members(m))
        },
        _ => j,
    }
}

/// Each item patched.
pub open spec fn fix_items(items: Seq<Json>) -> Seq<Json>
    decreases items,
{
    Seq::new(
        items.len(),
        |i: int|
            if 0 <= i < items.len() {
                fix_string_maps(items[i])
            } else {
                Json::Null
            },
    )
}

/// Each member's value patched, names and order kept.
pub open spec fn fix_members(m: Seq<(Seq<char>, Json)>) -> Seq<(Seq<char>, Json)>
    decreases m,
{
    Seq::new(
        m.len(),
        |i: int|
            if 0 <= i < m.len() {
                (m[i].0, fix_string_maps(m[i].1))
            } else {
                (Seq::empty(), Json::Null)
            },
    )
}

/// Builds `["string", "null"]`.
pub fn string_or_null_value() -> (r: JsonValue)
    ensures
        r@ == string_or_null(),
{
    let mut items: Vec<JsonValue> = Vec::new();
    items.push(JsonValue::Str("string".to_owned()));
    items.push(JsonValue::Str("null".to_owned()));
    proof {
        lemma_array_view(items);
        assert(items@.map_values(|v: JsonValue| v@) =~= seq![Json::Str("string"@), Json::Str("null"@)]);
    }
    JsonValue::Array(items)
}

/// Whether the members hold a string of the given text under `key`.
fn member_is_str(m: &Vec<(String, JsonValue)>, key: &String, text: &String) -> (r: bool)
    ensures
        r == (member(members_view(m@), key@) == Some(Json::Str(text@))),
{
    match find_member(m, key) {
        Some(i) => match &m[i].1 {
            JsonValue::Str(s) => *s == *text,
            _ => false,
        },
        None => false,
    }
}

/// Tests the pattern of the structural patch on an object's members.
pub fn detect_string_map(m: &Vec<(String, JsonValue)>) -> (r: bool)
    ensures
        r == is_string_map(members_view(m@)),
{
    if !member_is_str(m, &"type".to_owned(), &"object".to_owned()) {
        return false;
    }
    match find_member(m, &"additionalProperties".to_owned()) {
        Some(i) => match &m[i].1 {
            JsonValue::Object(ap) => {
                proof {
                    lemma_object_view(*ap);
                }
                member_is_str(ap, &"type".to_owned(), &"string".to_owned())
            },
            _ => false,
        },
        None => false,
    }
}

/// Marks a matched map: the node becomes nullable, its value type `["string", "null"]`.
pub fn mark_map(m: &mut Vec<(String, JsonValue)>)
    ensures
        members_view(final(m)@) == mark_string_map(members_view(old(m)@)),
{
    set_member(m, "nullable".to_owned(), JsonValue::Bool(true));
    let ap_key = "additionalProperties".to_owned();
    match find_member(m, &ap_key) {
        Some(i) => {
            match &mut m[i].1 {
                JsonValue::Object(ap) => {
                    proof {
                        lemma_object_view(*ap);
                    }
                    set_member(ap, "type".to_owned(), string_or_null_value());
                    proof {
                        lemma_object_view(*ap);
                    }
                },
                _ => {},
            }
            assert(members_view(m@) =~= mark_string_map(members_view(old(m)@)));
        },
        None => {},
    }
}

/// Applies the structural patch to every node of the tree.
pub fn patch_recursive_maps(value: &mut JsonValue)
    ensures
        final(value)@ == fix_string_maps(old(value)@),
    decreases *old(value),
{
    match value {
        JsonValue::Object(members) => {
            let ghost orig_vec = *members;
            let ghost orig = members@;
            proof {
                lemma_object_view(*members);
            }
            let matched = detect_string_map(members);
            let mut i: usize = 0;
            while i < members.len()
                invariant
                    0 <= i <= members@.len(),
                    members@.len() == orig.len(),
                    *old(value) == JsonValue::Object(orig_vec),
                    orig == orig_vec@,
                    forall|j: int|
                        0 <= j < i ==> members@[j].0 == orig[j].0 && members@[j].1@
                            == fix_string_maps(orig[j].1@),
                    forall|j: int| i <= j < members@.len() ==> members@[j] == orig[j],
                decreases members@.len() - i,
            {
                let ghost ov = *old(value);
                assert(decreases_to!(ov => ov->Object_0));
                assert(decreases_to!(ov->Object_0 => ov->Object_0[i as int]));
                assert(decreases_to!(ov->Object_0[i as int] => ov->Object_0[i as int].1));
                patch_recursive_maps(&mut members[i].1);
                i = i + 1;
            }
            proof {
                lemma_object_view(orig_vec);
                assert(members_view(members@) =~= fix_members(members_view(orig)));
            }
            if matched {
                mark_map(members);
            }
            proof {
                lemma_object_view(*members);
            }
        },
        JsonValue::Array(items) => {
            let ghost orig_vec = *items;
            let ghost orig = items@;
            proof {
                lemma_array_view(*items);
            }
            let mut i: usize = 0;
            while i < items.len()
                invariant
                    0 <= i <= items@.len(),
                    items@.len() == orig.len(),
                    *old(value) == JsonValue::Array(orig_vec),
                    orig == orig_vec@,
                    forall|j: int| 0 <= j < i ==> items@[j]@ == fix_string_maps(orig[j]@),
                    forall|j: int| i <= j < items@.len() ==> items@[j] == orig[j],
                decreases items@.len() - i,
            {
                let ghost ov = *old(value);
                assert(decreases_to!(ov => ov->Array_0));
                assert(decreases_to!(ov->Array_0 => ov->Array_0[i as int]));
                patch_recursive_maps(&mut items[i]);
                i = i + 1;
            }
            proof {
                lemma_array_view(*items);
                lemma_array_view(orig_vec);
                assert(items@.map_values(|v: JsonValue| v@) =~= fix_items(
                    orig.map_values(|v: JsonValue| v@),
                ));
            }
        },
        _ => {},
    }
}

/// The structural patch keeps strings, booleans, numbers and null as they are,
/// and keeps the kind of every node.
pub proof fn lemma_fix_kind(j: Json)
    ensures
        j is Object <==> fix_string_maps(j) is Object,
        j is Array <==> fix_string_maps(j) is Array,
        !(j is Object) && !(j is Array) ==> fix_string_maps(j) == j,
{
}

/// In the patched members a name holds the patched value it held before.
pub proof fn lemma_member_of_fixed(m: Seq<(Seq<char>, Json)>, k: Seq<char>)
    ensures
        member(fix_members(m), k) == (match member(m, k) {
            Some(v) => Some(fix_string_maps(v)),
            None => None,
        }),
{
    lemma_same_names_key_index(m, fix_members(m), k);
    lemma_key_index(m, k);
}

/// Patching the children neither makes nor unmakes a match.
pub proof fn lemma_match_of_fixed(m: Seq<(Seq<char>, Json)>)
    ensures
        is_string_map(fix_members(m)) == is_string_map(m),
{
    lemma_names_distinct();
    lemma_member_of_fixed(m, "type"@);
    lemma_member_of_fixed(m, "additionalProperties"@);
    if let Some(t) = member(m, "type"@) {
        lemma_fix_kind(t);
    }
    if let Some(a) = member(m, "additionalProperties"@) {
        lemma_fix_kind(a);
        if let Json::Object(apm) = a {
            lemma_member_of_fixed(apm, "type"@);
            if let Some(t) = member(apm, "type"@) {
                lemma_fix_kind(t);
            }
            if is_string_map(apm) {
                let k = fix_members(apm);
                let k1 = with_member(k, "nullable"@, Json::Bool(true));
                lemma_with_member_other(k, "nullable"@, Json::Bool(true), "type"@);
                lemma_with_member_other(k, "nullable"@, Json::Bool(true), "additionalProperties"@);
                if let Some(Json::Object(x)) = member(k1, "additionalProperties"@) {
                    lemma_with_member_other(
                        k1,
                        "additionalProperties"@,
                        Json::Object(with_member(x, "type"@, string_or_null())),
                        "type"@,
                    );
                }
            }
        }
    }
}

/// Setting a member to a value the patch keeps gives members the patch keeps.
pub proof fn lemma_fixed_with_member(a: Seq<(Seq<char>, Json)>, k: Seq<char>, v: Json)
    requires
        fix_members(a) == a,
        fix_string_maps(v) == v,
    ensures
        fix_members(with_member(a, k, v)) == with_member(a, k, v),
{
    let n = with_member(a, k, v);
    assert forall|i: int| 0 <= i < n.len() implies fix_string_maps(n[i].1) == n[i].1 by {
        if i < a.len() && n[i] == a[i] {
            assert(fix_members(a)[i] == a[i]);
        }
    }
    assert(fix_members(n) =~= n);
}

/// The type set `["string", "null"]` is left as it is.
pub proof fn lemma_string_or_null_fixed()
    ensures
        fix_string_maps(string_or_null()) == string_or_null(),
{
    let items = seq![Json::Str("string"@), Json::Str("null"@)];
    assert(fix_items(items) =~= items);
}

/// Applying the structural patch twice gives the same tree as applying it once.
pub proof fn lemma_fix_idempotent(j: Json)
    ensures
        fix_string_maps(fix_string_maps(j)) == fix_string_maps(j),
    decreases j,
{
    match j {
        Json::Array(items) => {
            let f = fix_items(items);
            assert forall|i: int| 0 <= i < items.len() implies fix_string_maps(f[i]) == f[i] by {
                lemma_fix_idempotent(items[i]);
            }
            assert(fix_items(f) =~= f);
        },
        Json::Object(m) => {
            let kids = fix_members(m);
            assert forall|i: int| 0 <= i < m.len() implies fix_string_maps(kids[i].1)
                == kids[i].1 by {
                assert(decreases_to!(j => m));
                assert(decreases_to!(m => m[i]));
                lemma_fix_idempotent(m[i].1);
            }
            assert(fix_members(kids) =~= kids);
            lemma_match_of_fixed(m);
            if is_string_map(m) {
                lemma_names_distinct();
                let m1 = with_member(kids, "nullable"@, Json::Bool(true));
                lemma_with_member_other(kids, "nullable"@, Json::Bool(true), "additionalProperties"@);
                lemma_member_of_fixed(m, "additionalProperties"@);
                let a = member(m, "additionalProperties"@)->Some_0;
                let apm = a->Object_0;
                let idx = key_index(m, "additionalProperties"@);
                lemma_key_index(m, "additionalProperties"@);
                assert(decreases_to!(j => m));
                assert(decreases_to!(m => m[idx]));
                lemma_fix_idempotent(a);
                lemma_member_of_fixed(apm, "type"@);
                lemma_names_distinct();
                assert(!is_string_map(apm));
                let apk = fix_members(apm);
                // the patched child is left as it is by a second pass
                assert(fix_members(apk) == apk);
                let apx = with_member(apk, "type"@, string_or_null());
                lemma_string_or_null_fixed();
                lemma_fixed_with_member(apk, "type"@, string_or_null());
                lemma_with_member_same(apk, "type"@, string_or_null());
                reveal_strlit("object");
                reveal_strlit("string");
                assert(!is_string_map(apx));
                assert(fix_string_maps(Json::Object(apx)) == Json::Object(apx));
                lemma_fixed_with_member(kids, "nullable"@, Json::Bool(true));
                lemma_fixed_with_member(m1, "additionalProperties"@, Json::Object(apx));
                let mm = mark_string_map(kids);
                lemma_with_member_same(m1, "additionalProperties"@, Json::Object(apx));
                assert(!is_string_map(mm));
            }
        },
        _ => {},
    }
}

/// Following `path` from `j` enters the `nullable` member of a matching node,
/// which the patch overwrites with `true`.
pub open spec fn passes_marker(j: Json, path: Seq<int>) -> bool
    decreases path.len(),
{
    if path.len() == 0 {
        false
    } else {
        let i = path[0];
        match j {
            Json::Array(items) => 0 <= i < items.len() && passes_marker(
                items[i],
                path.drop_first(),
            ),
            Json::Object(m) => 0 <= i < m.len() && ((is_string_map(m) && i == key_index(
                m,
                "nullable"@,
            )) || passes_marker(m[i].1, path.drop_first())),
            _ => false,
        }
    }
}

/// A node as the structural patch leaves a match: nullable, with values typed
/// `["string", "null"]`.
pub open spec fn is_marked(j: Json) -> bool {
    &&& j matches Json::Object(n)
    &&& member(j->Object_0, "nullable"@) == Some(Json::Bool(true))
    &&& member(j->Object_0, "additionalProperties"@) matches Some(Json::Object(a))
    &&& member(member(j->Object_0, "additionalProperties"@)->Some_0->Object_0, "type"@) == Some(
        string_or_null(),
    )
}

/// A matching node is marked by the structural patch.
pub proof fn lemma_match_marked(m: Seq<(Seq<char>, Json)>)
    requires
        is_string_map(m),
    ensures
        is_marked(fix_string_maps(Json::Object(m))),
{
    lemma_names_distinct();
    let kids = fix_members(m);
    let m1 = with_member(kids, "nullable"@, Json::Bool(true));
    lemma_with_member_same(kids, "nullable"@, Json::Bool(true));
    lemma_with_member_other(kids, "nullable"@, Json::Bool(true), "additionalProperties"@);
    lemma_member_of_fixed(m, "additionalProperties"@);
    let a = member(m, "additionalProperties"@)->Some_0;
    lemma_fix_kind(a);
    let apk = fix_string_maps(a)->Object_0;
    let apx = with_member(apk, "type"@, string_or_null());
    lemma_with_member_same(apk, "type"@, string_or_null());
    lemma_with_member_same(m1, "additionalProperties"@, Json::Object(apx));
    lemma_with_member_other(m1, "additionalProperties"@, Json::Object(apx), "nullable"@);
}

/// Every node that matches, at any depth, is marked by the structural patch,
/// unless the path to it runs through the `nullable` member of a matching
/// ancestor (that member becomes `true`).
pub proof fn lemma_match_marked_at(j: Json, path: Seq<int>)
    requires
        node_at(j, path) matches Some(Json::Object(m)) && is_string_map(m),
        !passes_marker(j, path),
    ensures
        node_at(fix_string_maps(j), path) matches Some(x) && is_marked(x),
    decreases path.len(),
{
    if path.len() == 0 {
        lemma_match_marked(j->Object_0);
    } else {
        let i = path[0];
        let rest = path.drop_first();
        match j {
            Json::Array(items) => {
                lemma_match_marked_at(items[i], rest);
            },
            Json::Object(m) => {
                lemma_match_marked_at(m[i].1, rest);
                let kids = fix_members(m);
                if is_string_map(m) {
                    lemma_names_distinct();
                    let m1 = with_member(kids, "nullable"@, Json::Bool(true));
                    lemma_same_names_key_index(m, kids, "nullable"@);
                    lemma_same_names_key_index(m, kids, "additionalProperties"@);
                    lemma_key_index(kids, "nullable"@);
                    lemma_with_member_other(
                        kids,
                        "nullable"@,
                        Json::Bool(true),
                        "additionalProperties"@,
                    );
                    assert(m1[i] == kids[i]);
                    let ai = key_index(m, "additionalProperties"@);
                    lemma_key_index(m, "additionalProperties"@);
                    let x = Json::Object(with_member(
                        m1[ai].1->Object_0,
                        "type"@,
                        string_or_null(),
                    ));
                    let kk = with_member(m1, "additionalProperties"@, x);
                    assert(mark_string_map(kids) == kk);
                    if i == ai {
                        let apm = m[i].1->Object_0;
                        assert(!is_string_map(apm)) by {
                            reveal_strlit("object");
                            reveal_strlit("string");
                        }
                        lemma_fix_kind(m[i].1);
                        let apk = fix_members(apm);
                        assert(m1[ai].1 == Json::Object(apk));
                        let apx = with_member(apk, "type"@, string_or_null());
                        lemma_same_names_key_index(apm, apk, "type"@);
                        lemma_key_index(apm, "type"@);
                        let ti = key_index(apm, "type"@);
                        assert(kk[i].1 == Json::Object(apx));
                        // the path cannot stop at the child or enter its `type` string
                        assert(rest.len() > 0);
                        assert(rest[0] != ti);
                        assert(apx[rest[0]] == apk[rest[0]]);
                        assert(node_at(Json::Object(apx), rest) == node_at(Json::Object(apk), rest));
                    } else {
                        assert(kk[i] == kids[i]);
                    }
                    assert(node_at(fix_string_maps(j), path) == node_at(kk[i].1, rest));
                } else {
                    assert(node_at(fix_string_maps(j), path) == node_at(kids[i].1, rest));
                }
            },
            _ => {},
        }
    }
}

/// Some node of the tree matches the pattern.
pub open spec fn contains_string_map(j: Json) -> bool {
    exists|path: Seq<int>|
        #[trigger] node_at(j, path) matches Some(Json::Object(m)) && is_string_map(m)
}

/// A tree in which no node matches is left exactly as it was.
pub proof fn lemma_unmatched_unchanged(j: Json)
    requires
        !contains_string_map(j),
    ensures
        fix_string_maps(j) == j,
    decreases j,
{
    match j {
        Json::Array(items) => {
            assert forall|i: int| 0 <= i < items.len() implies fix_string_maps(items[i])
                == items[i] by {
                assert forall|p: Seq<int>| !(#[trigger] node_at(items[i], p) matches Some(
                    Json::Object(m),
                ) && is_string_map(m)) by {
                    let q = seq![i].add(p);
                    assert(q.drop_first() =~= p);
                    assert(node_at(j, q) == node_at(items[i], p));
                }
                lemma_unmatched_unchanged(items[i]);
            }
            assert(fix_items(items) =~= items);
        },
        Json::Object(m) => {
            assert(node_at(j, Seq::empty()) == Some(j));
            assert forall|i: int| 0 <= i < m.len() implies fix_string_maps(m[i].1) == m[i].1 by {
                assert(decreases_to!(j => m));
                assert(decreases_to!(m => m[i]));
                assert forall|p: Seq<int>| !(#[trigger] node_at(m[i].1, p) matches Some(
                    Json::Object(c),
                ) && is_string_map(c)) by {
                    let q = seq![i].add(p);
                    assert(q.drop_first() =~= p);
                    assert(node_at(j, q) == node_at(m[i].1, p));
                }
                lemma_unmatched_unchanged(m[i].1);
            }
            assert(fix_members(m) =~= m);
        },
        _ => {},
    }
}

} // verus!
