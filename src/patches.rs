//! The patch registry and the engine that applies it, in order, to the
//! `components.schemas` object of a document.
use crate::error::{ErrorModel, PipelineError};
use crate::json::{
    key_index, lemma_key_index, lemma_names_distinct, lemma_names_with_member,
    lemma_object_view, lemma_with_member_other, lemma_with_member_same, member, members_view,
    names_of, with_member, Json, JsonValue,
};
use crate::string_maps::{
    fix_members, fix_string_maps, is_string_map, lemma_fix_kind, lemma_member_of_fixed,
    mark_string_map, patch_recursive_maps,
};
use crate::targeted::{
    child_object, find_object, lemma_child_present, lemma_child_set, nullable_values, patch_field_nullable,
    second_pass_marks, target_values, targeted_patch,
};
use vstd::prelude::*;

verus! {

/// A named correction rule over the schemas object.
pub enum Patch {
    /// Makes `schema.properties.field` nullable, and the values of the map it
    /// declares nullable too.
    NullableField { schema: String, field: String },
    /// Makes every object schema whose additional properties are plain strings
    /// nullable, with nullable values, at any depth.
    StringMaps,
}

/// The structural patch on the members of an object.
pub open spec fn fix_object(s: Seq<(Seq<char>, Json)>) -> Seq<(Seq<char>, Json)> {
    if is_string_map(s) {
        mark_string_map(fix_members(s))
    } else {
        fix_members(s)
    }
}

/// The schemas after one patch, or the error it stops with.
pub open spec fn apply_patch(p: Patch, s: Seq<(Seq<char>, Json)>) -> Result<
    Seq<(Seq<char>, Json)>,
    ErrorModel,
> {
    match p {
        Patch::NullableField { schema, field } => match targeted_patch(s, schema@, field@) {
            Ok(n) => Ok(n),
            Err(g) => Err(ErrorModel::PathResolution(schema@, field@, g)),
        },
        Patch::StringMaps => Ok(fix_object(s)),
    }
}

/// The schemas after each patch in turn; the first failure ends the run.
pub open spec fn apply_patches(ps: Seq<Patch>, s: Seq<(Seq<char>, Json)>) -> Result<
    Seq<(Seq<char>, Json)>,
    ErrorModel,
>
    decreases ps.len(),
{
    if ps.len() == 0 {
        Ok(s)
    } else {
        match apply_patches(ps.drop_last(), s) {
            Ok(t) => apply_patch(ps.last(), t),
            Err(e) => Err(e),
        }
    }
}

/// The members of `components.schemas`, or the section that is missing.
pub open spec fn schemas_section(doc: Json) -> Result<Seq<(Seq<char>, Json)>, ErrorModel> {
    match doc {
        Json::Object(d) => match child_object(d, "components"@) {
            None => Err(ErrorModel::MissingSection("components"@)),
            Some(c) => match child_object(c, "schemas"@) {
                None => Err(ErrorModel::MissingSection("components.schemas"@)),
                Some(s) => Ok(s),
            },
        },
        _ => Err(ErrorModel::MissingSection("components"@)),
    }
}

/// The document with the members of `components.schemas` replaced.
pub open spec fn with_schemas(doc: Json, s: Seq<(Seq<char>, Json)>) -> Json {
    match doc {
        Json::Object(d) => match child_object(d, "components"@) {
            Some(c) => Json::Object(
                with_member(
                    d,
                    "components"@,
                    Json::Object(with_member(c, "schemas"@, Json::Object(s))),
                ),
            ),
            None => doc,
        },
        _ => doc,
    }
}

/// The patches of this project, in the order they run.
pub fn registered_patches() -> (r: Vec<Patch>)
    ensures
        r@.len() == 2,
        r@[0] matches Patch::NullableField { schema, field } && schema@ == "ParameterProviderDTO"@
            && field@ == "properties"@,
        r@[1] is StringMaps,
{
    let mut r: Vec<Patch> = Vec::new();
    r.push(
        Patch::NullableField {
            schema: "ParameterProviderDTO".to_owned(),
            field: "properties".to_owned(),
        },
    );
    r.push(Patch::StringMaps);
    r
}

/// Applies the structural patch to the members of an object.
pub fn patch_string_maps(m: &mut Vec<(String, JsonValue)>)
    ensures
        members_view(final(m)@) == fix_object(members_view(old(m)@)),
{
    let mut taken: Vec<(String, JsonValue)> = Vec::new();
    std::mem::swap(m, &mut taken);
    proof {
        lemma_object_view(taken);
    }
    let mut v = JsonValue::Object(taken);
    patch_recursive_maps(&mut v);
    match v {
        JsonValue::Object(n) => {
            proof {
                lemma_object_view(n);
            }
            *m = n;
        },
        _ => {},
    }
}

/// Applies one patch to the schemas.
pub fn run_patch(p: &Patch, schemas: &mut Vec<(String, JsonValue)>) -> (r: Result<(), PipelineError>)
    ensures
        match apply_patch(*p, members_view(old(schemas)@)) {
            Ok(n) => r is Ok && members_view(final(schemas)@) == n,
            Err(e) => r matches Err(x) && x@ == e,
        },
{
    match p {
        Patch::NullableField { schema, field } => patch_field_nullable(schemas, schema, field),
        Patch::StringMaps => {
            patch_string_maps(schemas);
            Ok(())
        },
    }
}

/// Applies the patches in order to the schemas; the first failure ends the run.
pub fn run_patches(patches: &Vec<Patch>, schemas: &mut Vec<(String, JsonValue)>) -> (r: Result<
    (),
    PipelineError,
>)
    ensures
        match apply_patches(patches@, members_view(old(schemas)@)) {
            Ok(n) => r is Ok && members_view(final(schemas)@) == n,
            Err(e) => r matches Err(x) && x@ == e,
        },
{
    let ghost s0 = members_view(schemas@);
    let mut i: usize = 0;
    while i < patches.len()
        invariant
            0 <= i <= patches@.len(),
            s0 == members_view(old(schemas)@),
            apply_patches(patches@.take(i as int), s0) == Ok::<
                Seq<(Seq<char>, Json)>,
                ErrorModel,
            >(members_view(schemas@)),
        decreases patches@.len() - i,
    {
        assert(patches@.take(i + 1).drop_last() =~= patches@.take(i as int));
        let r = run_patch(&patches[i], schemas);
        if r.is_err() {
            proof {
                assert(apply_patches(patches@.take(i + 1), s0) is Err);
                lemma_failure_stays(patches@, s0, i + 1);
            }
            return r;
        }
        i = i + 1;
    }
    assert(patches@.take(i as int) =~= patches@);
    Ok(())
}

/// Applies the patches, in order, to the `components.schemas` object of a document.
/// Fails with `MissingSection` when that object is absent, leaving the document as it was.
pub fn apply_all_patches(doc: &mut JsonValue, patches: &Vec<Patch>) -> (r: Result<(), PipelineError>)
    ensures
        match schemas_section(old(doc)@) {
            Err(e) => r matches Err(x) && x@ == e && final(doc)@ == old(doc)@,
            Ok(s) => match apply_patches(patches@, s) {
                Ok(n) => r is Ok && final(doc)@ == with_schemas(old(doc)@, n),
                Err(e) => r matches Err(x) && x@ == e,
            },
        },
{
    let components_key = "components".to_owned();
    let schemas_key = "schemas".to_owned();
    proof {
        crate::json::lemma_names_distinct();
    }
    let ghost old_doc = *doc;
    match doc {
        JsonValue::Object(d) => {
            proof {
                lemma_object_view(*d);
            }
            let ghost d_first = *d;
            // set when `components` holds no `schemas` object: the document stays as it was
            let ghost mut section_missing: bool = false;
            let ci = match find_object(d, &components_key) {
                Some(ci) => ci,
                None => {
                    proof {
                        lemma_object_view(*d);
                    }
                    return Err(PipelineError::MissingSection(components_key));
                },
            };
            let ghost d0 = d@;
            let mut res: Result<(), PipelineError> = Ok(());
            match &mut d[ci].1 {
                JsonValue::Object(c) => {
                    proof {
                        lemma_object_view(*c);
                    }
                    match find_object(c, &schemas_key) {
                        None => {
                            res = Err(
                                PipelineError::MissingSection("components.schemas".to_owned()),
                            );
                            proof {
                                section_missing = true;
                            }
                        },
                        Some(si) => {
                            let ghost c0 = c@;
                            match &mut c[si].1 {
                                JsonValue::Object(s) => {
                                    proof {
                                        lemma_object_view(*s);
                                    }
                                    res = run_patches(patches, s);
                                    proof {
                                        lemma_object_view(*s);
                                    }
                                },
                                _ => {},
                            }
                            assert(members_view(c@) =~= members_view(c0).update(
                                si as int,
                                (schemas_key@, c@[si as int].1@),
                            ));
                        },
                    }
                    proof {
                        lemma_object_view(*c);
                    }
                },
                _ => {},
            }
            assert(members_view(d@) =~= members_view(d0).update(
                ci as int,
                (components_key@, d@[ci as int].1@),
            ));
            proof {
                lemma_object_view(*d);
                lemma_object_view(d_first);
            }
            assert(section_missing ==> members_view(d@) == members_view(d_first@));
            assert(section_missing ==> JsonValue::Object(*d)@ == old_doc@);
            res
        },
        _ => Err(PipelineError::MissingSection(components_key)),
    }
}

/// Once a prefix of the patches fails, the whole list fails the same way.
proof fn lemma_failure_stays(ps: Seq<Patch>, s: Seq<(Seq<char>, Json)>, n: int)
    requires
        0 <= n <= ps.len(),
        apply_patches(ps.take(n), s) is Err,
    ensures
        apply_patches(ps, s) == apply_patches(ps.take(n), s),
    decreases ps.len() - n,
{
    if n < ps.len() {
        assert(ps.take(n + 1).drop_last() =~= ps.take(n));
        lemma_failure_stays(ps, s, n + 1);
    } else {
        assert(ps.take(n) =~= ps);
    }
}

/// Running the structural patch twice on the schemas gives what running it once gave.
pub proof fn lemma_string_maps_idempotent(s: Seq<(Seq<char>, Json)>)
    ensures
        apply_patch(Patch::StringMaps, fix_object(s)) == apply_patch(Patch::StringMaps, s),
{
    crate::string_maps::lemma_fix_idempotent(Json::Object(s));
    assert(fix_string_maps(Json::Object(s)) == Json::Object(fix_object(s)));
}

/// A targeted patch whose path does not resolve ends the run with
/// `PathResolutionError` naming the schema, the field and the missing step,
/// whatever patches come after it.
pub proof fn lemma_missing_path_fatal(ps: Seq<Patch>, s: Seq<(Seq<char>, Json)>, k: int)
    requires
        0 <= k < ps.len(),
        apply_patches(ps.take(k), s) is Ok,
        ps[k] is NullableField,
        targeted_patch(
            apply_patches(ps.take(k), s)->Ok_0,
            ps[k]->NullableField_schema@,
            ps[k]->NullableField_field@,
        ) is Err,
    ensures
        apply_patches(ps, s) == Err::<Seq<(Seq<char>, Json)>, ErrorModel>(
            ErrorModel::PathResolution(
                ps[k]->NullableField_schema@,
                ps[k]->NullableField_field@,
                targeted_patch(
                    apply_patches(ps.take(k), s)->Ok_0,
                    ps[k]->NullableField_schema@,
                    ps[k]->NullableField_field@,
                )->Err_0,
            ),
        ),
{
    assert(ps.take(k + 1).drop_last() =~= ps.take(k));
    lemma_failure_stays(ps, s, k + 1);
}

/// The names of the schemas after some patches: the names they started with, or those
/// followed by `nullable` holding `true` (the structural patch marked the
/// schemas object itself).
pub open spec fn names_kept(t: Seq<(Seq<char>, Json)>, s: Seq<(Seq<char>, Json)>) -> bool {
    names_of(t) == names_of(s) || (names_of(t) == names_of(s).push("nullable"@) && member(
        t,
        "nullable"@,
    ) == Some(Json::Bool(true)))
}

/// Each patch keeps `names_kept`.
proof fn lemma_patch_keeps_names(p: Patch, t: Seq<(Seq<char>, Json)>, s: Seq<(Seq<char>, Json)>)
    requires
        names_kept(t, s),
        apply_patch(p, t) is Ok,
    ensures
        names_kept(apply_patch(p, t)->Ok_0, s),
{
    lemma_names_distinct();
    match p {
        Patch::NullableField { schema, field } => {
            let sc = child_object(t, schema@)->Some_0;
            let sc2 = crate::targeted::patch_schema(sc, field@)->Ok_0;
            lemma_key_index(t, schema@);
            lemma_names_with_member(t, schema@, Json::Object(sc2));
            if schema@ != "nullable"@ {
                lemma_with_member_other(t, schema@, Json::Object(sc2), "nullable"@);
            }
        },
        Patch::StringMaps => {
            let kids = fix_members(t);
            assert(names_of(kids) =~= names_of(t));
            lemma_member_of_fixed(t, "nullable"@);
            if let Some(v) = member(t, "nullable"@) {
                lemma_fix_kind(v);
            }
            if is_string_map(t) {
                crate::json::lemma_same_names_key_index(t, kids, "nullable"@);
                crate::json::lemma_same_names_key_index(t, kids, "additionalProperties"@);
                let m1 = with_member(kids, "nullable"@, Json::Bool(true));
                lemma_names_with_member(kids, "nullable"@, Json::Bool(true));
                lemma_with_member_same(kids, "nullable"@, Json::Bool(true));
                lemma_with_member_other(kids, "nullable"@, Json::Bool(true), "additionalProperties"@);
                if let Some(Json::Object(ap)) = member(m1, "additionalProperties"@) {
                    let x = Json::Object(with_member(ap, "type"@, crate::string_maps::string_or_null()));
                    lemma_key_index(m1, "additionalProperties"@);
                    lemma_names_with_member(m1, "additionalProperties"@, x);
                    lemma_with_member_other(m1, "additionalProperties"@, x, "nullable"@);
                }
                if key_index(t, "nullable"@) < 0 {
                    lemma_key_index(t, "nullable"@);
                }
            }
        },
    }
}

/// Every successful run of patches keeps `names_kept`.
pub proof fn lemma_patches_keep_names(ps: Seq<Patch>, s: Seq<(Seq<char>, Json)>)
    requires
        apply_patches(ps, s) is Ok,
    ensures
        names_kept(apply_patches(ps, s)->Ok_0, s),
    decreases ps.len(),
{
    if ps.len() > 0 {
        lemma_patches_keep_names(ps.drop_last(), s);
        lemma_patch_keeps_names(ps.last(), apply_patches(ps.drop_last(), s)->Ok_0, s);
    }
}

/// What the structural patch leaves under the name `k` of an object that held
/// the object `c` there: `c` patched, and with its type set rewritten when `k`
/// is the additional-properties child of a matching object.
pub open spec fn child_after_fix(
    t: Seq<(Seq<char>, Json)>,
    k: Seq<char>,
    c: Seq<(Seq<char>, Json)>,
) -> Seq<(Seq<char>, Json)> {
    if is_string_map(t) && k == "additionalProperties"@ {
        with_member(fix_object(c), "type"@, crate::string_maps::string_or_null())
    } else {
        fix_object(c)
    }
}

/// Reading an object member through the structural patch.
pub proof fn lemma_child_after_fix(t: Seq<(Seq<char>, Json)>, k: Seq<char>)
    requires
        child_object(t, k) is Some,
        !(is_string_map(t) && k == "nullable"@),
    ensures
        child_object(fix_object(t), k) == Some(child_after_fix(t, k, child_object(t, k)->Some_0)),
{
    lemma_names_distinct();
    let c = child_object(t, k)->Some_0;
    lemma_member_of_fixed(t, k);
    let kids = fix_members(t);
    if is_string_map(t) {
        let m1 = with_member(kids, "nullable"@, Json::Bool(true));
        lemma_with_member_other(kids, "nullable"@, Json::Bool(true), k);
        lemma_with_member_other(kids, "nullable"@, Json::Bool(true), "additionalProperties"@);
        lemma_member_of_fixed(t, "additionalProperties"@);
        let a = member(m1, "additionalProperties"@)->Some_0;
        lemma_fix_kind(member(t, "additionalProperties"@)->Some_0);
        let x = Json::Object(with_member(a->Object_0, "type"@, crate::string_maps::string_or_null()));
        if k == "additionalProperties"@ {
            lemma_with_member_same(m1, "additionalProperties"@, x);
        } else {
            lemma_with_member_other(m1, "additionalProperties"@, x, k);
        }
    }
}

/// A member that the structural patch does not mark keeps its patched value.
pub proof fn lemma_member_after_fix(t: Seq<(Seq<char>, Json)>, k: Seq<char>)
    requires
        !is_string_map(t) || (k != "nullable"@ && k != "additionalProperties"@),
    ensures
        member(fix_object(t), k) == (match member(t, k) {
            Some(v) => Some(fix_string_maps(v)),
            None => None,
        }),
{
    lemma_names_distinct();
    lemma_member_of_fixed(t, k);
    let kids = fix_members(t);
    if is_string_map(t) {
        let m1 = with_member(kids, "nullable"@, Json::Bool(true));
        lemma_with_member_other(kids, "nullable"@, Json::Bool(true), k);
        if let Some(Json::Object(a)) = member(m1, "additionalProperties"@) {
            let x = Json::Object(with_member(a, "type"@, crate::string_maps::string_or_null()));
            lemma_with_member_other(m1, "additionalProperties"@, x, k);
        }
    }
}

/// A list of two patches is the first, then the second.
proof fn lemma_two_patches(ps: Seq<Patch>, x: Seq<(Seq<char>, Json)>)
    requires
        ps.len() == 2,
    ensures
        apply_patches(ps, x) == (match apply_patch(ps[0], x) {
            Ok(t) => apply_patch(ps[1], t),
            Err(e) => Err(e),
        }),
{
    assert(ps.drop_last().drop_last() =~= Seq::<Patch>::empty());
    assert(apply_patches(ps.drop_last().drop_last(), x) == Ok::<
        Seq<(Seq<char>, Json)>,
        ErrorModel,
    >(x));
    assert(ps.drop_last().last() == ps[0]);
    assert(ps.last() == ps[1]);
    assert(apply_patches(ps.drop_last(), x) == apply_patch(ps[0], x));
}

/// The `properties` object of the targeted schema.
pub open spec fn target_properties(s: Seq<(Seq<char>, Json)>, schema: Seq<char>) -> Seq<
    (Seq<char>, Json),
> {
    child_object(child_object(s, schema)->Some_0, "properties"@)->Some_0
}

/// A list of a targeted patch followed by the structural patch, applied to
/// what it produced, produces it again. The inputs left out are those on which
/// a second run does change the result: the targeted child was typed
/// `"string"` and not yet nullable (the second run marks it nullable), or the
/// targeted schema or field is named `nullable` inside an object that the
/// structural patch marks (the second run finds `true` there).
pub proof fn lemma_patch_list_idempotent(s: Seq<(Seq<char>, Json)>, schema: String, field: String)
    requires
        apply_patches(
            seq![Patch::NullableField { schema, field }, Patch::StringMaps],
            s,
        ) is Ok,
        !second_pass_marks(target_values(s, schema@, field@)),
        !(schema@ == "nullable"@ && is_string_map(s)),
        !(field@ == "nullable"@ && is_string_map(target_properties(s, schema@))),
    ensures
        apply_patches(
            seq![Patch::NullableField { schema, field }, Patch::StringMaps],
            apply_patches(seq![Patch::NullableField { schema, field }, Patch::StringMaps], s)->Ok_0,
        ) == apply_patches(seq![Patch::NullableField { schema, field }, Patch::StringMaps], s),
{
    let ps = seq![Patch::NullableField { schema, field }, Patch::StringMaps];
    lemma_two_patches(ps, s);
    let sch = schema@;
    let fld = field@;
    let xx = crate::string_maps::string_or_null();
    lemma_names_distinct();
    // the first run
    let n1 = targeted_patch(s, sch, fld)->Ok_0;
    let m1 = fix_object(n1);
    assert(apply_patches(ps, s) == Ok::<Seq<(Seq<char>, Json)>, ErrorModel>(m1));
    lemma_two_patches(ps, m1);
    let sc = child_object(s, sch)->Some_0;
    let p = child_object(sc, "properties"@)->Some_0;
    let f = child_object(p, fld)->Some_0;
    let ap = child_object(f, "additionalProperties"@)->Some_0;
    let ap2 = nullable_values(ap);
    let f1 = with_member(f, "nullable"@, Json::Bool(true));
    let f2 = with_member(f1, "additionalProperties"@, Json::Object(ap2));
    let p2 = with_member(p, fld, Json::Object(f2));
    let sc2 = with_member(sc, "properties"@, Json::Object(p2));
    assert(n1 == with_member(s, sch, Json::Object(sc2)));
    lemma_child_set(s, sch, sc2);
    lemma_child_set(sc, "properties"@, p2);
    lemma_child_set(p, fld, f2);
    lemma_child_set(f1, "additionalProperties"@, ap2);
    // what the first run made of the targeted child
    reveal_strlit("string");
    reveal_strlit("null");
    assert(Json::Str("string"@) != xx);
    if member(ap, "type"@) == Some(Json::Str("string"@)) {
        lemma_with_member_same(ap, "type"@, xx);
        lemma_with_member_other(ap, "type"@, xx, "nullable"@);
    } else {
        lemma_with_member_other(ap, "nullable"@, Json::Bool(true), "type"@);
        lemma_with_member_same(ap, "nullable"@, Json::Bool(true));
    }
    assert(member(ap2, "type"@) != Some(Json::Str("string"@)));
    assert(member(ap2, "nullable"@) == Some(Json::Bool(true)));
    lemma_with_member_same(f, "nullable"@, Json::Bool(true));
    lemma_with_member_other(f1, "additionalProperties"@, Json::Object(ap2), "nullable"@);
    assert(member(f2, "nullable"@) == Some(Json::Bool(true)));
    assert(!is_string_map(f2));
    if sch == "nullable"@ {
        lemma_with_member_other(s, sch, Json::Object(sc2), "type"@);
        lemma_with_member_other(s, sch, Json::Object(sc2), "additionalProperties"@);
    }
    assert(!(is_string_map(n1) && sch == "nullable"@));
    if fld == "nullable"@ {
        lemma_with_member_other(p, fld, Json::Object(f2), "type"@);
        lemma_with_member_other(p, fld, Json::Object(f2), "additionalProperties"@);
    }
    assert(!(is_string_map(p2) && fld == "nullable"@));
    // the path after the structural patch
    lemma_child_after_fix(n1, sch);
    let scx = child_after_fix(n1, sch, sc2);
    lemma_child_after_fix(sc2, "properties"@);
    if is_string_map(n1) && sch == "additionalProperties"@ {
        lemma_with_member_other(fix_object(sc2), "type"@, xx, "properties"@);
    }
    let px = fix_object(p2);
    assert(child_object(scx, "properties"@) == Some(px));
    lemma_child_after_fix(p2, fld);
    let fx = child_after_fix(p2, fld, f2);
    assert(child_object(px, fld) == Some(fx));
    lemma_child_after_fix(f2, "additionalProperties"@);
    let apx = fix_object(ap2);
    lemma_member_after_fix(f2, "nullable"@);
    if is_string_map(p2) && fld == "additionalProperties"@ {
        lemma_with_member_other(fix_object(f2), "type"@, xx, "additionalProperties"@);
        lemma_with_member_other(fix_object(f2), "type"@, xx, "nullable"@);
    }
    assert(child_object(fx, "additionalProperties"@) == Some(apx));
    assert(member(fx, "nullable"@) == Some(Json::Bool(true)));
    // the second targeted run changes nothing on that path
    if is_string_map(ap2) {
        let k = fix_members(ap2);
        lemma_with_member_same(k, "nullable"@, Json::Bool(true));
        lemma_with_member_other(k, "nullable"@, Json::Bool(true), "type"@);
        lemma_with_member_other(k, "nullable"@, Json::Bool(true), "additionalProperties"@);
        lemma_member_of_fixed(ap2, "type"@);
        lemma_member_of_fixed(ap2, "additionalProperties"@);
        let m1a = with_member(k, "nullable"@, Json::Bool(true));
        if let Some(Json::Object(a)) = member(m1a, "additionalProperties"@) {
            let x = Json::Object(with_member(a, "type"@, xx));
            lemma_with_member_other(m1a, "additionalProperties"@, x, "nullable"@);
            lemma_with_member_other(m1a, "additionalProperties"@, x, "type"@);
        }
    } else {
        lemma_member_after_fix(ap2, "nullable"@);
        lemma_member_after_fix(ap2, "type"@);
    }
    if let Some(t) = member(ap2, "type"@) {
        lemma_fix_kind(t);
    }
    assert(member(apx, "type"@) != Some(Json::Str("string"@)));
    assert(member(apx, "nullable"@) == Some(Json::Bool(true)));
    crate::json::lemma_with_member_present(apx, "nullable"@, Json::Bool(true));
    assert(nullable_values(apx) == apx);
    crate::json::lemma_with_member_present(fx, "nullable"@, Json::Bool(true));
    lemma_child_present(fx, "additionalProperties"@, apx);
    assert(crate::targeted::patch_field(fx) == Ok::<Seq<(Seq<char>, Json)>, Seq<char>>(fx));
    lemma_child_present(px, fld, fx);
    lemma_child_present(scx, "properties"@, px);
    lemma_child_present(m1, sch, scx);
    assert(targeted_patch(m1, sch, fld) == Ok::<Seq<(Seq<char>, Json)>, Seq<char>>(m1));
    // and the second structural run changes nothing at all
    crate::string_maps::lemma_fix_idempotent(Json::Object(n1));
    assert(fix_string_maps(Json::Object(n1)) == Json::Object(m1));
    assert(fix_object(m1) == m1);
}

} // verus!
