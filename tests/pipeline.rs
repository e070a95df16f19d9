use nifi_rs::error::PipelineError;
use nifi_rs::json::JsonValue;
use nifi_rs::patches::{apply_all_patches, registered_patches, Patch};
use nifi_rs::pipeline::{extract_schemas, load_document, run_pipeline, run_registered};
use nifi_rs::string_maps::patch_recursive_maps;

fn doc(text: &str) -> JsonValue {
    load_document(text).expect("test input is well-formed")
}

fn member<'a>(v: &'a JsonValue, key: &str) -> Option<&'a JsonValue> {
    match v {
        JsonValue::Object(m) => m.iter().find(|(k, _)| k == key).map(|(_, x)| x),
        _ => None,
    }
}

fn str_value(s: &str) -> JsonValue {
    JsonValue::Str(s.to_string())
}

fn string_or_null() -> JsonValue {
    JsonValue::Array(vec![str_value("string"), str_value("null")])
}

fn provider_dto(ap: &str) -> String {
    format!(
        r#"{{"components":{{"schemas":{{"ParameterProviderDTO":{{"type":"object","properties":{{"properties":{{"type":"object","additionalProperties":{}}}}}}}}}}}}}"#,
        ap
    )
}

#[test]
fn string_map_nested_in_array_is_rewritten() {
    let input = r#"{"list":[{"a":{"b":{"type":"object","additionalProperties":{"type":"string"}}}},{"type":"integer"},"text",3]}"#;
    let mut v = doc(input);
    patch_recursive_maps(&mut v);
    let expected = doc(
        r#"{"list":[{"a":{"b":{"type":"object","additionalProperties":{"type":["string","null"]},"nullable":true}}},{"type":"integer"},"text",3]}"#,
    );
    assert_eq!(v, expected);
}

#[test]
fn non_matching_nodes_are_untouched() {
    let input = r#"{"x":{"type":"object","additionalProperties":{"type":"integer"}},"y":{"type":"object","additionalProperties":true},"z":{"type":"string","additionalProperties":{"type":"string"}},"n":[1.5,null,false]}"#;
    let mut v = doc(input);
    patch_recursive_maps(&mut v);
    assert_eq!(v, doc(input));
}

#[test]
fn structural_patch_twice_equals_once() {
    let input = r#"{"m":{"type":"object","additionalProperties":{"type":"string"},"properties":{"inner":{"type":"object","additionalProperties":{"type":"string"}}}}}"#;
    let mut once = doc(input);
    patch_recursive_maps(&mut once);
    let mut twice = doc(input);
    patch_recursive_maps(&mut twice);
    patch_recursive_maps(&mut twice);
    assert_eq!(once, twice);
    let m = member(&once, "m").unwrap();
    assert_eq!(member(m, "nullable"), Some(&JsonValue::Bool(true)));
    let inner = member(member(m, "properties").unwrap(), "inner").unwrap();
    assert_eq!(
        member(member(inner, "additionalProperties").unwrap(), "type"),
        Some(&string_or_null())
    );
}

#[test]
fn targeted_patch_reports_missing_additional_properties() {
    let text = r#"{"components":{"schemas":{"Foo":{"type":"object","properties":{"bar":{"type":"object"}}}}}}"#;
    let mut v = doc(text);
    let before = doc(text);
    let patches = vec![Patch::NullableField { schema: "Foo".to_string(), field: "bar".to_string() }];
    let r = apply_all_patches(&mut v, &patches);
    assert_eq!(
        r,
        Err(PipelineError::PathResolutionError {
            schema: "Foo".to_string(),
            field: "bar".to_string(),
            segment: "additionalProperties".to_string(),
        })
    );
    assert_eq!(v, before);
}

#[test]
fn targeted_patch_reports_each_missing_segment() {
    let patches = vec![Patch::NullableField { schema: "Foo".to_string(), field: "bar".to_string() }];
    let cases = [
        (r#"{"components":{"schemas":{}}}"#, "Foo"),
        (r#"{"components":{"schemas":{"Foo":{"type":"object"}}}}"#, "properties"),
        (r#"{"components":{"schemas":{"Foo":{"properties":{"baz":{}}}}}}"#, "bar"),
        (r#"{"components":{"schemas":{"Foo":{"properties":{"bar":5}}}}}"#, "bar"),
        (r#"{"components":{"schemas":{"Foo":{"properties":{"bar":{"additionalProperties":true}}}}}}"#, "additionalProperties"),
    ];
    for (text, segment) in cases {
        let r = run_pipeline(text, &patches);
        assert_eq!(
            r,
            Err(PipelineError::PathResolutionError {
                schema: "Foo".to_string(),
                field: "bar".to_string(),
                segment: segment.to_string(),
            })
        );
    }
}

#[test]
fn targeted_patch_rewrites_string_values() {
    let r = run_registered(&provider_dto(r#"{"type":"string"}"#)).unwrap();
    assert_eq!(r.len(), 1);
    let field = member(member(&r[0].1, "properties").unwrap(), "properties").unwrap();
    assert_eq!(member(field, "nullable"), Some(&JsonValue::Bool(true)));
    let ap = member(field, "additionalProperties").unwrap();
    assert_eq!(member(ap, "type"), Some(&string_or_null()));
    assert_eq!(member(ap, "nullable"), None);
}

#[test]
fn targeted_patch_marks_other_values_nullable() {
    let r = run_registered(&provider_dto(r#"{"type":"integer"}"#)).unwrap();
    let field = member(member(&r[0].1, "properties").unwrap(), "properties").unwrap();
    let ap = member(field, "additionalProperties").unwrap();
    assert_eq!(member(ap, "type"), Some(&str_value("integer")));
    assert_eq!(member(ap, "nullable"), Some(&JsonValue::Bool(true)));
}

#[test]
fn registered_patches_run_in_order() {
    let p = registered_patches();
    assert_eq!(p.len(), 2);
    match &p[0] {
        Patch::NullableField { schema, field } => {
            assert_eq!(schema, "ParameterProviderDTO");
            assert_eq!(field, "properties");
        }
        _ => panic!("the targeted patch comes first"),
    }
    assert!(matches!(p[1], Patch::StringMaps));
}

#[test]
fn large_schema_map_keeps_every_entry_in_order() {
    let mut body = String::from(r#""ParameterProviderDTO":{"type":"object","properties":{"properties":{"type":"object","additionalProperties":{"type":"string"}}}}"#);
    let mut names = vec!["ParameterProviderDTO".to_string()];
    for i in 0..1999 {
        let name = format!("S{:04}", 1999 - i);
        body.push_str(&format!(r#","{}":{{"type":"object","additionalProperties":{{"type":"string"}}}}"#, name));
        names.push(name);
    }
    let text = format!(r#"{{"components":{{"schemas":{{{}}}}}}}"#, body);
    let r = run_registered(&text).unwrap();
    assert_eq!(r.len(), 2000);
    let got: Vec<String> = r.iter().map(|(k, _)| k.clone()).collect();
    assert_eq!(got, names);
    assert_eq!(member(&r[1].1, "nullable"), Some(&JsonValue::Bool(true)));
}

#[test]
fn order_of_schemas_follows_the_document() {
    let text = r#"{"components":{"schemas":{"Zeta":{"type":"object"},"Alpha":{"type":"string"},"Mid":{}}}}"#;
    let r = run_pipeline(text, &vec![Patch::StringMaps]).unwrap();
    let got: Vec<&str> = r.iter().map(|(k, _)| k.as_str()).collect();
    assert_eq!(got, vec!["Zeta", "Alpha", "Mid"]);
}

#[test]
fn malformed_text_is_a_parse_error() {
    let r = run_registered("{\"components\": ");
    assert!(matches!(r, Err(PipelineError::ParseError(_))));
}

#[test]
fn missing_sections_are_reported() {
    assert_eq!(
        run_registered(r#"{"info":{}}"#),
        Err(PipelineError::MissingSection("components".to_string()))
    );
    assert_eq!(
        run_registered(r#"{"components":{"responses":{}}}"#),
        Err(PipelineError::MissingSection("components.schemas".to_string()))
    );
    assert_eq!(
        run_registered(r#"[1,2]"#),
        Err(PipelineError::MissingSection("components".to_string()))
    );
    let mut v = doc(r#"{"components":{"schemas":[]}}"#);
    assert_eq!(
        apply_all_patches(&mut v, &vec![Patch::StringMaps]),
        Err(PipelineError::MissingSection("components.schemas".to_string()))
    );
}

#[test]
fn entries_that_are_not_schemas_are_refused() {
    let patches = vec![Patch::StringMaps];
    assert_eq!(
        run_pipeline(r#"{"components":{"schemas":{"A":{},"B":true,"C":5}}}"#, &patches),
        Err(PipelineError::SchemaCastError("B".to_string()))
    );
    assert_eq!(
        run_pipeline(r#"{"components":{"schemas":{"A":{"type":5}}}}"#, &patches),
        Err(PipelineError::SchemaCastError("A".to_string()))
    );
}

#[test]
fn extraction_reads_the_schemas_as_they_are() {
    let v = doc(r#"{"components":{"schemas":{"A":{"type":"integer","format":"int64"}}}}"#);
    let r = extract_schemas(v).unwrap();
    assert_eq!(r.len(), 1);
    assert_eq!(r[0].0, "A");
    assert_eq!(member(&r[0].1, "format"), Some(&str_value("int64")));
}

#[test]
fn numbers_keep_their_text() {
    let v = doc(r#"{"a":12,"b":-3.5}"#);
    assert_eq!(member(&v, "a"), Some(&JsonValue::Number("12".to_string())));
    assert_eq!(member(&v, "b"), Some(&JsonValue::Number("-3.5".to_string())));
}

#[test]
fn error_messages_name_what_failed() {
    let e = PipelineError::PathResolutionError {
        schema: "Foo".to_string(),
        field: "bar".to_string(),
        segment: "additionalProperties".to_string(),
    };
    assert_eq!(e.message(), "Foo.bar: additionalProperties");
}

fn provider_document(ap: &str) -> String {
    format!(
        r#"{{"components":{{"schemas":{{"ParameterProviderDTO":{{"type":"object","properties":{{"properties":{{"type":"object","additionalProperties":{}}},"tags":{{"type":"object","additionalProperties":{{"type":"string"}}}}}}}},"Other":{{"type":"array","items":{{"type":"object","additionalProperties":{{"type":"string"}}}}}}}}}}}}"#,
        ap
    )
}

#[test]
fn patch_list_twice_equals_once() {
    let text = provider_document(r#"{"type":"integer"}"#);
    let patches = registered_patches();
    let mut once = doc(&text);
    apply_all_patches(&mut once, &patches).unwrap();
    let mut twice = doc(&text);
    apply_all_patches(&mut twice, &patches).unwrap();
    apply_all_patches(&mut twice, &patches).unwrap();
    assert_eq!(once, twice);
}

#[test]
fn patch_list_twice_on_nullable_string_child_equals_once() {
    let text = provider_document(r#"{"type":"string","nullable":true}"#);
    let patches = registered_patches();
    let mut once = doc(&text);
    apply_all_patches(&mut once, &patches).unwrap();
    let mut twice = doc(&text);
    apply_all_patches(&mut twice, &patches).unwrap();
    apply_all_patches(&mut twice, &patches).unwrap();
    assert_eq!(once, twice);
}

#[test]
fn second_run_marks_a_rewritten_string_child() {
    let text = provider_document(r#"{"type":"string"}"#);
    let patches = registered_patches();
    let mut once = doc(&text);
    apply_all_patches(&mut once, &patches).unwrap();
    let mut twice = doc(&text);
    apply_all_patches(&mut twice, &patches).unwrap();
    apply_all_patches(&mut twice, &patches).unwrap();
    let nullable_of_child = |v: &JsonValue| -> Option<bool> {
        let s = member(member(v, "components").unwrap(), "schemas").unwrap();
        let dto = member(s, "ParameterProviderDTO").unwrap();
        let f = member(member(dto, "properties").unwrap(), "properties").unwrap();
        match member(member(f, "additionalProperties").unwrap(), "nullable") {
            Some(JsonValue::Bool(b)) => Some(*b),
            _ => None,
        }
    };
    assert_eq!(nullable_of_child(&once), None);
    assert_eq!(nullable_of_child(&twice), Some(true));
}

#[test]
fn structural_patch_marks_the_schemas_inside_the_document() {
    let r = run_registered(&provider_document(r#"{"type":"integer"}"#)).unwrap();
    let names: Vec<&str> = r.iter().map(|(k, _)| k.as_str()).collect();
    assert_eq!(names, vec!["ParameterProviderDTO", "Other"]);
    let tags = member(member(&r[0].1, "properties").unwrap(), "tags").unwrap();
    assert_eq!(member(tags, "nullable"), Some(&JsonValue::Bool(true)));
    let items = member(&r[1].1, "items").unwrap();
    assert_eq!(
        member(member(items, "additionalProperties").unwrap(), "type"),
        Some(&string_or_null())
    );
}

#[test]
fn repeated_schema_names_give_one_entry() {
    let r = run_pipeline(
        r#"{"components":{"schemas":{"A":{},"B":{},"A":{"type":"string"}}}}"#,
        &vec![Patch::StringMaps],
    )
    .unwrap();
    let names: Vec<&str> = r.iter().map(|(k, _)| k.as_str()).collect();
    assert_eq!(names, vec!["A", "B"]);
    assert_eq!(member(&r[0].1, "type"), Some(&str_value("string")));
}
