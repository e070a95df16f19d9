//! The targeted patch: one known field, reached by its exact path
//! (schema, `properties`, field, `additionalProperties`), becomes a nullable map
//! of nullable values.
use crate::error::{ErrorModel, PipelineError};
use crate::json::{
    find_member, lemma_names_distinct, lemma_object_view, lemma_with_member_other,
    lemma_with_member_present, lemma_with_member_same, member, members_view, set_member,
    with_member, Json, JsonValue,
};
use crate::string_maps::{string_or_null, string_or_null_value};
use vstd::prelude::*;

verus! {

/// The members of the object held under `k`, if `k` holds an object.
pub open spec fn child_object(m: Seq<(Seq<char>, Json)>, k: Seq<char>) -> Option<
    Seq<(Seq<char>, Json)>,
> {
    match member(m, k) {
        Some(Json::Object(c)) => Some(c),
        _ => None,
    }
}

/// The rewritten additional-properties child: a `"string"` type becomes
/// `["string", "null"]`; any other child is marked nullable.
pub open spec fn nullable_values(ap: Seq<(Seq<char>, Json)>) -> Seq<(Seq<char>, Json)> {
    if member(ap, "type"@) == Some(Json::Str("string"@)) {
        with_member(ap, "type"@, string_or_null())
    } else {
        with_member(ap, "nullable"@, Json::Bool(true))
    }
}

/// The field marked nullable with its additional-properties child rewritten,
/// or the name of the step that failed.
pub open spec fn patch_field(f: Seq<(Seq<char>, Json)>) -> Result<Seq<(Seq<char>, Json)>, Seq<char>> {
    match child_object(f, "additionalProperties"@) {
        None => Err("additionalProperties"@),
        Some(ap) => Ok(
            with_member(
                with_member(f, "nullable"@, Json::Bool(true)),
                "additionalProperties"@,
                Json::Object(nullable_values(ap)),
            ),
        ),
    }
}

/// The `properties` object with the field patched.
pub open spec fn patch_properties(p: Seq<(Seq<char>, Json)>, field: Seq<char>) -> Result<
    Seq<(Seq<char>, Json)>,
    Seq<char>,
> {
    match child_object(p, field) {
        None => Err(field),
        Some(f) => match patch_field(f) {
            Err(g) => Err(g),
            Ok(f2) => Ok(with_member(p, field, Json::Object(f2))),
        },
    }
}

/// One schema with the field under its `properties` patched.
pub open spec fn patch_schema(sc: Seq<(Seq<char>, Json)>, field: Seq<char>) -> Result<
    Seq<(Seq<char>, Json)>,
    Seq<char>,
> {
    match child_object(sc, "properties"@) {
        None => Err("properties"@),
        Some(p) => match patch_properties(p, field) {
            Err(g) => Err(g),
            Ok(p2) => Ok(with_member(sc, "properties"@, Json::Object(p2))),
        },
    }
}

/// The schemas with `schema.properties.field` patched, or the name of the
/// first step of that path that is absent or not an object.
pub open spec fn targeted_patch(
    schemas: Seq<(Seq<char>, Json)>,
    schema: Seq<char>,
    field: Seq<char>,
) -> Result<Seq<(Seq<char>, Json)>, Seq<char>> {
    match child_object(schemas, schema) {
        None => Err(schema),
        Some(sc) => match patch_schema(sc, field) {
            Err(g) => Err(g),
            Ok(sc2) => Ok(with_member(schemas, schema, Json::Object(sc2))),
        },
    }
}

/// Where `key` holds an object: its position.
pub(crate) fn find_object(m: &Vec<(String, JsonValue)>, key: &String) -> (r: Option<usize>)
    ensures
        match r {
            Some(i) => {
                &&& i < m@.len()
                &&& i as int == crate::json::key_index(members_view(m@), key@)
                &&& m@[i as int].1 is Object
            },
            None => child_object(members_view(m@), key@) is None,
        },
{
    match find_member(m, key) {
        Some(i) => {
            if let JsonValue::Object(_) = &m[i].1 {
                Some(i)
            } else {
                None
            }
        },
        None => None,
    }
}

/// Rewrites the additional-properties child of the targeted field.
fn rewrite_values(ap: &mut Vec<(String, JsonValue)>)
    ensures
        members_view(final(ap)@) == nullable_values(members_view(old(ap)@)),
{
    let type_key = "type".to_owned();
    let is_string = match find_member(ap, &type_key) {
        Some(j) => match &ap[j].1 {
            JsonValue::Str(t) => *t == "string".to_owned(),
            _ => false,
        },
        None => false,
    };
    if is_string {
        set_member(ap, type_key, string_or_null_value());
    } else {
        set_member(ap, "nullable".to_owned(), JsonValue::Bool(true));
    }
}

/// Patches the targeted field itself; on failure it is left as it was.
fn rewrite_field(f: &mut Vec<(String, JsonValue)>) -> (r: Result<(), String>)
    ensures
        match patch_field(members_view(old(f)@)) {
            Ok(n) => r is Ok && members_view(final(f)@) == n,
            Err(g) => r matches Err(e) && e@ == g && members_view(final(f)@) == members_view(
                old(f)@,
            ),
        },
{
    let key = "additionalProperties".to_owned();
    match find_object(f, &key) {
        None => Err(key),
        Some(i) => {
            let ghost f0 = members_view(f@);
            set_member(f, "nullable".to_owned(), JsonValue::Bool(true));
            proof {
                lemma_names_distinct();
                lemma_with_member_other(f0, "nullable"@, Json::Bool(true), key@);
            }
            let ghost before = f@;
            match &mut f[i].1 {
                JsonValue::Object(ap) => {
                    proof {
                        lemma_object_view(*ap);
                    }
                    rewrite_values(ap);
                    proof {
                        lemma_object_view(*ap);
                    }
                },
                _ => {},
            }
            assert(members_view(f@) =~= members_view(before).update(
                i as int,
                (key@, f@[i as int].1@),
            ));
            Ok(())
        },
    }
}

/// Patches the field within a `properties` object; on failure it is left as it was.
fn rewrite_properties(p: &mut Vec<(String, JsonValue)>, field: &String) -> (r: Result<(), String>)
    ensures
        match patch_properties(members_view(old(p)@), field@) {
            Ok(n) => r is Ok && members_view(final(p)@) == n,
            Err(g) => r matches Err(e) && e@ == g && members_view(final(p)@) == members_view(
                old(p)@,
            ),
        },
{
    match find_object(p, field) {
        None => Err(field.clone()),
        Some(i) => {
            let ghost before = p@;
            let r = match &mut p[i].1 {
                JsonValue::Object(f) => {
                    proof {
                        lemma_object_view(*f);
                    }
                    let r = rewrite_field(f);
                    proof {
                        lemma_object_view(*f);
                    }
                    r
                },
                _ => Ok(()),
            };
            assert(members_view(p@) =~= members_view(before).update(
                i as int,
                (field@, p@[i as int].1@),
            ));
            r
        },
    }
}

/// Patches the field within one schema; on failure it is left as it was.
fn rewrite_schema(sc: &mut Vec<(String, JsonValue)>, field: &String) -> (r: Result<(), String>)
    ensures
        match patch_schema(members_view(old(sc)@), field@) {
            Ok(n) => r is Ok && members_view(final(sc)@) == n,
            Err(g) => r matches Err(e) && e@ == g && members_view(final(sc)@) == members_view(
                old(sc)@,
            ),
        },
{
    let key = "properties".to_owned();
    match find_object(sc, &key) {
        None => Err(key),
        Some(i) => {
            let ghost before = sc@;
            let r = match &mut sc[i].1 {
                JsonValue::Object(p) => {
                    proof {
                        lemma_object_view(*p);
                    }
                    let r = rewrite_properties(p, field);
                    proof {
                        lemma_object_view(*p);
                    }
                    r
                },
                _ => Ok(()),
            };
            assert(members_view(sc@) =~= members_view(before).update(
                i as int,
                (key@, sc@[i as int].1@),
            ));
            r
        },
    }
}

/// Applies the targeted patch to `schema.properties.field` within the schemas.
/// On failure the schemas are left as they were and the error names the first
/// step of the path that is absent or not an object.
pub fn patch_field_nullable(
    schemas: &mut Vec<(String, JsonValue)>,
    schema: &String,
    field: &String,
) -> (r: Result<(), PipelineError>)
    ensures
        match targeted_patch(members_view(old(schemas)@), schema@, field@) {
            Ok(n) => r is Ok && members_view(final(schemas)@) == n,
            Err(g) => r matches Err(e) && e@ == ErrorModel::PathResolution(schema@, field@, g)
                && members_view(final(schemas)@) == members_view(old(schemas)@),
        },
{
    let res = match find_object(schemas, schema) {
        None => Err(schema.clone()),
        Some(i) => {
            let ghost before = schemas@;
            let r = match &mut schemas[i].1 {
                JsonValue::Object(sc) => {
                    proof {
                        lemma_object_view(*sc);
                    }
                    let r = rewrite_schema(sc, field);
                    proof {
                        lemma_object_view(*sc);
                    }
                    r
                },
                _ => Ok(()),
            };
            assert(members_view(schemas@) =~= members_view(before).update(
                i as int,
                (schema@, schemas@[i as int].1@),
            ));
            r
        },
    };
    match res {
        Ok(()) => Ok(()),
        Err(segment) => Err(
            PipelineError::PathResolutionError {
                schema: schema.clone(),
                field: field.clone(),
                segment,
            },
        ),
    }
}

/// The additional-properties child at the end of the targeted path.
pub open spec fn target_values(
    schemas: Seq<(Seq<char>, Json)>,
    schema: Seq<char>,
    field: Seq<char>,
) -> Seq<(Seq<char>, Json)> {
    let sc = child_object(schemas, schema)->Some_0;
    let p = child_object(sc, "properties"@)->Some_0;
    let f = child_object(p, field)->Some_0;
    child_object(f, "additionalProperties"@)->Some_0
}

/// The one case in which a second targeted patch changes what the first made:
/// the child was typed `"string"` (the first pass rewrote the type set) and was
/// not already marked nullable (the second pass marks it).
pub open spec fn second_pass_marks(ap: Seq<(Seq<char>, Json)>) -> bool {
    member(ap, "type"@) == Some(Json::Str("string"@)) && member(ap, "nullable"@) != Some(
        Json::Bool(true),
    )
}

/// Setting an object member and reading it back.
pub proof fn lemma_child_set(m: Seq<(Seq<char>, Json)>, k: Seq<char>, c: Seq<(Seq<char>, Json)>)
    ensures
        child_object(with_member(m, k, Json::Object(c)), k) == Some(c),
{
    lemma_with_member_same(m, k, Json::Object(c));
}

/// Setting an object member to the object it already holds changes nothing.
pub proof fn lemma_child_present(m: Seq<(Seq<char>, Json)>, k: Seq<char>, c: Seq<(Seq<char>, Json)>)
    requires
        child_object(m, k) == Some(c),
    ensures
        with_member(m, k, Json::Object(c)) == m,
{
    lemma_with_member_present(m, k, Json::Object(c));
}

/// Applying the targeted patch twice gives what applying it once gave, except
/// when the first pass rewrote a `"string"` type of a child not yet nullable.
pub proof fn lemma_targeted_idempotent(
    schemas: Seq<(Seq<char>, Json)>,
    schema: Seq<char>,
    field: Seq<char>,
)
    requires
        targeted_patch(schemas, schema, field) is Ok ==> !second_pass_marks(
            target_values(schemas, schema, field),
        ),
    ensures
        match targeted_patch(schemas, schema, field) {
            Ok(n) => targeted_patch(n, schema, field) == Ok::<
                Seq<(Seq<char>, Json)>,
                Seq<char>,
            >(n),
            Err(_) => true,
        },
{
    if let Ok(n) = targeted_patch(schemas, schema, field) {
        lemma_names_distinct();
        let sc = child_object(schemas, schema)->Some_0;
        let p = child_object(sc, "properties"@)->Some_0;
        let f = child_object(p, field)->Some_0;
        let ap = child_object(f, "additionalProperties"@)->Some_0;
        let ap2 = nullable_values(ap);
        let f1 = with_member(f, "nullable"@, Json::Bool(true));
        let f2 = with_member(f1, "additionalProperties"@, Json::Object(ap2));
        let p2 = with_member(p, field, Json::Object(f2));
        let sc2 = with_member(sc, "properties"@, Json::Object(p2));
        assert(n == with_member(schemas, schema, Json::Object(sc2)));
        lemma_child_set(schemas, schema, sc2);
        lemma_child_set(sc, "properties"@, p2);
        lemma_child_set(p, field, f2);
        lemma_child_set(f1, "additionalProperties"@, ap2);
        // the child after the first pass is left as it is by the second
        reveal_strlit("string");
        reveal_strlit("null");
        assert(Json::Str("string"@) != string_or_null());
        if member(ap, "type"@) == Some(Json::Str("string"@)) {
            lemma_with_member_same(ap, "type"@, string_or_null());
            lemma_with_member_other(ap, "type"@, string_or_null(), "nullable"@);
            lemma_with_member_present(ap2, "nullable"@, Json::Bool(true));
        } else {
            lemma_with_member_other(ap, "nullable"@, Json::Bool(true), "type"@);
            lemma_with_member_same(ap, "nullable"@, Json::Bool(true));
            lemma_with_member_present(ap2, "nullable"@, Json::Bool(true));
        }
        assert(nullable_values(ap2) == ap2);
        // the field after the first pass is left as it is by the second
        lemma_with_member_same(f, "nullable"@, Json::Bool(true));
        lemma_with_member_other(f1, "additionalProperties"@, Json::Object(ap2), "nullable"@);
        lemma_with_member_present(f2, "nullable"@, Json::Bool(true));
        lemma_child_present(f2, "additionalProperties"@, ap2);
        assert(patch_field(f2) == Ok::<Seq<(Seq<char>, Json)>, Seq<char>>(f2));
        lemma_child_present(p2, field, f2);
        lemma_child_present(sc2, "properties"@, p2);
        lemma_child_present(n, schema, sc2);
    }
}

} // verus!
