//! The pipeline: load the document, patch `components.schemas`, and extract
//! the corrected schemas in document order.
use crate::error::{ErrorModel, PipelineError};
use crate::json::{
    all_names_unique, find_member, key_index, lemma_key_index, lemma_object_view,
    lemma_with_member_same, members_view, names_of, names_unique, node_at, Json, JsonValue,
};
use crate::patches::{
    apply_all_patches, apply_patches, lemma_patches_keep_names, registered_patches,
    schemas_section, with_schemas, Patch,
};
use crate::serde_tree::{is_schema_node, parse_json, parsed_json, schema_node_ok};
use vstd::prelude::*;

verus! {

/// A value that the extractor accepts as a schema: an object that reads as a schema node.
pub open spec fn valid_schema(j: Json) -> bool {
    j is Object && is_schema_node(j)
}

/// What extraction gives for the members of `components.schemas`: all of them,
/// in order, or an error naming the first one that is not a valid schema.
pub open spec fn extraction_ok(s: Seq<(Seq<char>, Json)>, r: Result<Vec<(String, JsonValue)>, PipelineError>) -> bool {
    if forall|i: int| 0 <= i < s.len() ==> valid_schema(#[trigger] s[i].1) {
        r matches Ok(v) && members_view(v@) == s
    } else {
        exists|i: int|
            {
                &&& 0 <= i < s.len()
                &&& !valid_schema(s[i].1)
                &&& forall|j: int| 0 <= j < i ==> valid_schema(#[trigger] s[j].1)
                &&& r matches Err(x) && x@ == ErrorModel::SchemaCast(s[i].0)
            }
    }
}

/// Parses the specification text into a document.
pub fn load_document(text: &str) -> (r: Result<JsonValue, PipelineError>)
    ensures
        match parsed_json(text@) {
            Some(d) => r matches Ok(v) && v@ == d && all_names_unique(d),
            None => r matches Err(PipelineError::ParseError(_)),
        },
{
    match parse_json(text) {
        Ok(v) => Ok(v),
        Err(m) => Err(PipelineError::ParseError(m)),
    }
}

/// Takes out the value held under `key`, if it is an object: its members.
fn take_object(m: Vec<(String, JsonValue)>, key: &String) -> (r: Option<Vec<(String, JsonValue)>>)
    ensures
        match crate::targeted::child_object(members_view(m@), key@) {
            Some(c) => r matches Some(v) && members_view(v@) == c,
            None => r is None,
        },
{
    let mut m = m;
    match find_member(&m, key) {
        Some(i) => {
            let (_, v) = m.remove(i);
            match v {
                JsonValue::Object(c) => {
                    proof {
                        lemma_object_view(c);
                    }
                    Some(c)
                },
                _ => None,
            }
        },
        None => None,
    }
}

/// Reads `components.schemas` of a patched document as an ordered list of
/// named schemas, checking that each is a well-formed schema node.
pub fn extract_schemas(doc: JsonValue) -> (r: Result<Vec<(String, JsonValue)>, PipelineError>)
    ensures
        match schemas_section(doc@) {
            Err(e) => r matches Err(x) && x@ == e,
            Ok(s) => extraction_ok(s, r),
        },
{
    let schemas = match doc {
        JsonValue::Object(d) => {
            proof {
                lemma_object_view(d);
            }
            match take_object(d, &"components".to_owned()) {
                None => {
                    return Err(PipelineError::MissingSection("components".to_owned()));
                },
                Some(c) => match take_object(c, &"schemas".to_owned()) {
                    None => {
                        return Err(PipelineError::MissingSection("components.schemas".to_owned()));
                    },
                    Some(s) => s,
                },
            }
        },
        _ => {
            return Err(PipelineError::MissingSection("components".to_owned()));
        },
    };
    match first_invalid(&schemas) {
        None => Ok(schemas),
        Some(i) => Err(PipelineError::SchemaCastError(schemas[i].0.clone())),
    }
}

/// The position of the first entry that is not a valid schema.
fn first_invalid(schemas: &Vec<(String, JsonValue)>) -> (r: Option<usize>)
    ensures
        match r {
            None => forall|j: int|
                0 <= j < schemas@.len() ==> valid_schema(#[trigger] members_view(schemas@)[j].1),
            Some(i) => {
                &&& i < schemas@.len()
                &&& !valid_schema(members_view(schemas@)[i as int].1)
                &&& forall|j: int| 0 <= j < i ==> valid_schema(#[trigger] members_view(schemas@)[j].1)
            },
        },
{
    let ghost s = members_view(schemas@);
    let mut i: usize = 0;
    while i < schemas.len()
        invariant
            0 <= i <= schemas@.len(),
            s == members_view(schemas@),
            forall|j: int| 0 <= j < i ==> valid_schema(#[trigger] s[j].1),
        decreases schemas@.len() - i,
    {
        let ok = match &schemas[i].1 {
            JsonValue::Object(_) => schema_node_ok(&schemas[i].1),
            _ => false,
        };
        if !ok {
            return Some(i);
        }
        i = i + 1;
    }
    None
}

/// Runs the whole pipeline on a specification text with the given patches.
pub fn run_pipeline(text: &str, patches: &Vec<Patch>) -> (r: Result<
    Vec<(String, JsonValue)>,
    PipelineError,
>)
    ensures
        match parsed_json(text@) {
            None => r matches Err(PipelineError::ParseError(_)),
            Some(d) => match schemas_section(d) {
                Err(e) => r matches Err(x) && x@ == e,
                Ok(s) => match apply_patches(patches@, s) {
                    Err(e) => r matches Err(x) && x@ == e,
                    Ok(n) => extraction_ok(n, r),
                },
            },
        },
        r matches Ok(v) ==> names_unique(members_view(v@)),
{
    let mut doc = load_document(text)?;
    let ghost d = doc@;
    apply_all_patches(&mut doc, patches)?;
    proof {
        if let Ok(s) = schemas_section(d) {
            if let Ok(n) = apply_patches(patches@, s) {
                lemma_schemas_replaced(d, n);
            }
        }
    }
    let r = extract_schemas(doc);
    proof {
        if r is Ok {
            let s = schemas_section(d)->Ok_0;
            lemma_section_unique(d);
            lemma_order_preserved(patches@, s, r);
            let v = members_view(r->Ok_0@);
            assert(v.len() == names_of(v).len());
            assert(s.len() == names_of(s).len());
            assert forall|i: int, j: int| 0 <= i < j < v.len() implies v[i].0 != v[j].0 by {
                assert(names_of(v)[i] == names_of(s)[i]);
                assert(names_of(v)[j] == names_of(s)[j]);
                assert(s[i].0 != s[j].0);
            }
        }
    }
    r
}

/// The schemas of a document whose objects have distinct member names have
/// distinct names.
proof fn lemma_section_unique(d: Json)
    requires
        all_names_unique(d),
        schemas_section(d) is Ok,
    ensures
        names_unique(schemas_section(d)->Ok_0),
{
    let dm = d->Object_0;
    let ci = key_index(dm, "components"@);
    lemma_key_index(dm, "components"@);
    let c = dm[ci].1->Object_0;
    let si = key_index(c, "schemas"@);
    lemma_key_index(c, "schemas"@);
    let path = seq![ci, si];
    assert(path.drop_first() =~= seq![si]);
    assert(seq![si].drop_first() =~= Seq::<int>::empty());
    assert(node_at(c[si].1, Seq::<int>::empty()) == Some(c[si].1));
    assert(node_at(dm[ci].1, seq![si]) == node_at(c[si].1, Seq::<int>::empty()));
    assert(node_at(d, path) == node_at(dm[ci].1, seq![si]));
}

/// Runs the whole pipeline with the registered patches.
pub fn run_registered(text: &str) -> (r: Result<Vec<(String, JsonValue)>, PipelineError>)
    ensures
        match parsed_json(text@) {
            None => r matches Err(PipelineError::ParseError(_)),
            Some(d) => match schemas_section(d) {
                Err(e) => r matches Err(x) && x@ == e,
                Ok(s) => exists|ps: Seq<Patch>|
                    {
                        &&& ps.len() == 2
                        &&& ps[0] matches Patch::NullableField { schema, field } && schema@
                            == "ParameterProviderDTO"@ && field@ == "properties"@
                        &&& ps[1] is StringMaps
                        &&& match apply_patches(ps, s) {
                            Err(e) => r matches Err(x) && x@ == e,
                            Ok(n) => extraction_ok(n, r),
                        }
                    },
            },
        },
        r matches Ok(v) ==> names_unique(members_view(v@)),
{
    let patches = registered_patches();
    run_pipeline(text, &patches)
}

/// Reading back the schemas that were just put in gives them.
proof fn lemma_schemas_replaced(d: Json, n: Seq<(Seq<char>, Json)>)
    requires
        schemas_section(d) is Ok,
    ensures
        schemas_section(with_schemas(d, n)) == Ok::<Seq<(Seq<char>, Json)>, ErrorModel>(n),
{
    if let Json::Object(dm) = d {
        if let Some(c) = crate::targeted::child_object(dm, "components"@) {
            let c2 = crate::json::with_member(c, "schemas"@, Json::Object(n));
            lemma_with_member_same(c, "schemas"@, Json::Object(n));
            lemma_with_member_same(dm, "components"@, Json::Object(c2));
        }
    }
}

/// A successful extraction lists the schemas under the names, and in the
/// order, that `components.schemas` of the source document has: none dropped,
/// none added, none repeated.
pub proof fn lemma_order_preserved(
    ps: Seq<Patch>,
    s: Seq<(Seq<char>, Json)>,
    r: Result<Vec<(String, JsonValue)>, PipelineError>,
)
    requires
        apply_patches(ps, s) is Ok,
        extraction_ok(apply_patches(ps, s)->Ok_0, r),
        r is Ok,
    ensures
        names_of(members_view(r->Ok_0@)) == names_of(s),
{
    let n = apply_patches(ps, s)->Ok_0;
    lemma_patches_keep_names(ps, s);
    if names_of(n) != names_of(s) {
        lemma_key_index(n, "nullable"@);
        let i = key_index(n, "nullable"@);
        assert(!valid_schema(n[i].1));
    }
}

} // verus!
