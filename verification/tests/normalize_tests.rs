use dawnstore::apply_impl::build_base_objects_from_raw_value;
use dawnstore::backend::Store;
use dawnstore::error::DawnStoreError;
use dawnstore::json::JsonVal;
use dawnstore::models::{is_none_or_empty, StringMap};
use dawnstore::render::to_text;
use dawnstore::text::split_on;

fn s(x: &str) -> String {
    String::from(x)
}

fn obj(fields: Vec<(&str, JsonVal)>) -> JsonVal {
    JsonVal::Obj(fields.into_iter().map(|(k, v)| (s(k), v)).collect())
}

fn jstr(x: &str) -> JsonVal {
    JsonVal::Str(s(x))
}

fn ids(n: u128) -> Vec<u128> {
    (1000..1000 + n).collect()
}

#[test]
fn a_number_at_the_root_is_rejected() {
    let r = build_base_objects_from_raw_value(&JsonVal::Num(s("42")));
    assert!(matches!(r, Err(DawnStoreError::InvalidRootInputObject)));
}

#[test]
fn an_object_without_kind_is_a_single_object() {
    let objs = build_base_objects_from_raw_value(&obj(vec![("name", jstr("a"))])).unwrap();
    assert_eq!(objs.len(), 1);
    assert!(objs[0].kind.is_none());
    // the missing metadata is reported by validation, not by normalization
    let mut store = Store::new();
    let doc = obj(vec![("name", jstr("a")), ("api_version", jstr("v1"))]);
    assert!(matches!(
        store.apply_at(&doc, 100, &ids(5)),
        Err(DawnStoreError::KindMissingInObject)
    ));
}

#[test]
fn a_list_envelope_without_list_is_rejected() {
    let r = build_base_objects_from_raw_value(&obj(vec![("kind", jstr("List"))]));
    assert!(matches!(r, Err(DawnStoreError::InvalidInputObjectMissingKindField)));
}

#[test]
fn an_object_without_name_is_a_deserialisation_error() {
    let r = build_base_objects_from_raw_value(&obj(vec![("kind", jstr("thing"))]));
    assert!(matches!(r, Err(DawnStoreError::DeserialisationError(_))));
}

#[test]
fn a_single_object_keeps_its_spec_fields() {
    let doc = obj(vec![
        ("kind", jstr("thing")),
        ("api_version", jstr("v1")),
        ("name", jstr("a")),
        ("speed", JsonVal::Num(s("3"))),
        ("colour", jstr("red")),
    ]);
    let objs = build_base_objects_from_raw_value(&doc).unwrap();
    assert_eq!(objs.len(), 1);
    assert_eq!(objs[0].name, "a");
    assert_eq!(objs[0].kind.as_deref(), Some("thing"));
    match &objs[0].spec {
        JsonVal::Obj(fields) => {
            assert_eq!(fields.len(), 2);
            assert_eq!(fields[0].0, "speed");
            assert_eq!(fields[1].0, "colour");
        }
        _ => panic!("spec should be an object"),
    }
}

#[test]
fn p5_envelope_overrides_element_kinds_and_versions() {
    let elems = vec![
        obj(vec![("name", jstr("a"))]),
        obj(vec![("name", jstr("b")), ("kind", jstr("own")), ("api_version", jstr("v9"))]),
    ];
    let doc = obj(vec![
        ("kind", jstr("List")),
        ("object_kind", jstr("empty")),
        ("object_api_version", jstr("v1")),
        ("list", JsonVal::Arr(elems)),
    ]);
    let objs = build_base_objects_from_raw_value(&doc).unwrap();
    assert_eq!(objs.len(), 2);
    for o in &objs {
        assert_eq!(o.kind.as_deref(), Some("empty"));
        assert_eq!(o.api_version.as_deref(), Some("v1"));
    }
    // the envelope feeds the apply pipeline end to end
    let mut store = Store::new();
    store
        .seed_object_schema(s("v1"), s("empty"), vec![], s("{}"), vec![])
        .unwrap();
    let r = store.apply_at(&doc, 100, &ids(5)).unwrap();
    assert_eq!(r.len(), 2);
    assert_eq!(r[0].kind, "empty");
    assert_eq!(r[1].kind, "empty");
}

#[test]
fn an_envelope_without_overrides_keeps_element_fields() {
    let elems = vec![obj(vec![
        ("name", jstr("a")),
        ("kind", jstr("own")),
        ("api_version", jstr("v9")),
    ])];
    let doc = obj(vec![("kind", jstr("List")), ("list", JsonVal::Arr(elems))]);
    let objs = build_base_objects_from_raw_value(&doc).unwrap();
    assert_eq!(objs[0].kind.as_deref(), Some("own"));
    assert_eq!(objs[0].api_version.as_deref(), Some("v9"));
}

#[test]
fn missing_metadata_is_reported_in_order() {
    let mut store = Store::new();
    let no_av = JsonVal::Arr(vec![obj(vec![("name", jstr("a")), ("kind", jstr("x"))])]);
    assert!(matches!(
        store.apply_at(&no_av, 100, &ids(5)),
        Err(DawnStoreError::ApiVersionMissingInObject)
    ));
    let no_kind = JsonVal::Arr(vec![obj(vec![("name", jstr("a")), ("api_version", jstr("v1"))])]);
    assert!(matches!(
        store.apply_at(&no_kind, 100, &ids(5)),
        Err(DawnStoreError::KindMissingInObject)
    ));
}

#[test]
fn rendering_writes_canonical_json() {
    let v = obj(vec![
        ("a", JsonVal::Arr(vec![
            JsonVal::Num(s("1")),
            JsonVal::Bool(true),
            JsonVal::Null,
            jstr("x\"y"),
        ])),
        ("b", obj(vec![])),
    ]);
    assert_eq!(to_text(&v), "{\"a\":[1,true,null,\"x\\\"y\"],\"b\":{}}");
}

#[test]
fn rendering_escapes_control_characters() {
    let v = jstr("a\nb\tc\u{1}");
    assert_eq!(to_text(&v), "\"a\\nb\\tc\\u0001\"");
}

#[test]
fn splitting_keeps_empty_pieces() {
    let parts = split_on(&s("a/b/c"), '/');
    assert_eq!(parts, vec![s("a"), s("b"), s("c")]);
    let parts = split_on(&s("lonely"), '/');
    assert_eq!(parts, vec![s("lonely")]);
    let parts = split_on(&s("x//y"), '/');
    assert_eq!(parts, vec![s("x"), s(""), s("y")]);
    let parts = split_on(&s(""), '/');
    assert_eq!(parts, vec![s("")]);
}

#[test]
fn none_and_empty_maps_count_as_empty() {
    assert!(is_none_or_empty(&None));
    let empty: StringMap = Vec::new();
    assert!(is_none_or_empty(&Some(empty)));
    let full: StringMap = vec![(s("k"), s("v"))];
    assert!(!is_none_or_empty(&Some(full)));
}
