use dawnstore::backend::Store;
use dawnstore::error::DawnStoreError;
use dawnstore::json::JsonVal;
use dawnstore::models::{DeleteObject, GetObjectsFilter, GetResourceDefinitionFilter};

fn s(x: &str) -> String {
    String::from(x)
}

fn obj(fields: Vec<(&str, JsonVal)>) -> JsonVal {
    JsonVal::Obj(fields.into_iter().map(|(k, v)| (s(k), v)).collect())
}

fn jstr(x: &str) -> JsonVal {
    JsonVal::Str(s(x))
}

fn filter() -> GetObjectsFilter {
    GetObjectsFilter {
        namespace: None,
        kind: None,
        name: None,
        fill_child_foreign_keys: false,
        fill_parent_foreign_keys: false,
        ids: None,
        page: None,
        page_size: None,
    }
}

fn ids(n: u128) -> Vec<u128> {
    (1000..1000 + n).collect()
}

fn seed_and_apply_many(store: &mut Store, names: &[(&str, &str)]) {
    store
        .seed_object_schema(s("v1"), s("alpha"), vec![], s("{}"), vec![])
        .unwrap();
    store
        .seed_object_schema(s("v1"), s("beta"), vec![], s("{}"), vec![])
        .unwrap();
    for (idx, (kind, name)) in names.iter().enumerate() {
        let doc = obj(vec![
            ("kind", jstr(kind)),
            ("api_version", jstr("v1")),
            ("name", jstr(name)),
        ]);
        let fresh: Vec<u128> = vec![10_000 + idx as u128];
        store.apply_at(&doc, 100, &fresh).unwrap();
    }
}

#[test]
fn get_orders_by_kind_then_name() {
    let mut store = Store::new();
    seed_and_apply_many(
        &mut store,
        &[("beta", "b"), ("alpha", "z"), ("beta", "a"), ("alpha", "a")],
    );
    let rows = store.get(&filter()).unwrap();
    let got: Vec<(String, String)> =
        rows.into_iter().map(|r| (r.kind, r.name)).collect();
    assert_eq!(
        got,
        vec![
            (s("alpha"), s("a")),
            (s("alpha"), s("z")),
            (s("beta"), s("a")),
            (s("beta"), s("b")),
        ]
    );
}

#[test]
fn get_filters_by_kind_name_and_namespace() {
    let mut store = Store::new();
    seed_and_apply_many(&mut store, &[("alpha", "a"), ("beta", "a")]);
    let other = obj(vec![
        ("kind", jstr("alpha")),
        ("api_version", jstr("v1")),
        ("name", jstr("a")),
        ("namespace", jstr("prod")),
    ]);
    let fresh: Vec<u128> = (2000..2005).collect();
    store.apply_at(&other, 100, &fresh).unwrap();

    let mut f = filter();
    f.kind = Some(s("alpha"));
    assert_eq!(store.get(&f).unwrap().len(), 2);
    f.namespace = Some(s("prod"));
    let rows = store.get(&f).unwrap();
    assert_eq!(rows.len(), 1);
    assert_eq!(rows[0].namespace, "prod");

    let mut by_name = filter();
    by_name.name = Some(s("a"));
    assert_eq!(store.get(&by_name).unwrap().len(), 3);

    let one_id = rows[0].id;
    let mut by_id = filter();
    by_id.ids = Some(vec![one_id]);
    let rows = store.get(&by_id).unwrap();
    assert_eq!(rows.len(), 1);
    assert_eq!(rows[0].id, one_id);
}

#[test]
fn p7_page_size_is_clamped_to_250() {
    let mut store = Store::new();
    store
        .seed_object_schema(s("v1"), s("alpha"), vec![], s("{}"), vec![])
        .unwrap();
    let mut elems = Vec::new();
    for i in 0..300 {
        elems.push(obj(vec![
            ("kind", jstr("alpha")),
            ("api_version", jstr("v1")),
            ("name", jstr(&format!("n{:03}", i))),
        ]));
    }
    let doc = JsonVal::Arr(elems);
    let fresh: Vec<u128> = (1..=300).collect();
    store.apply_at(&doc, 100, &fresh).unwrap();
    let mut f = filter();
    f.page_size = Some(10_000);
    let rows = store.get(&f).unwrap();
    assert_eq!(rows.len(), 250);
}

#[test]
fn paging_steps_through_the_ordered_rows() {
    let mut store = Store::new();
    seed_and_apply_many(
        &mut store,
        &[("alpha", "a"), ("alpha", "b"), ("alpha", "c"), ("alpha", "d"), ("alpha", "e")],
    );
    let mut f = filter();
    f.page_size = Some(2);
    f.page = Some(1);
    let rows = store.get(&f).unwrap();
    let got: Vec<String> = rows.into_iter().map(|r| r.name).collect();
    assert_eq!(got, vec![s("c"), s("d")]);
}

#[test]
fn delete_scopes_to_the_given_namespace() {
    let mut store = Store::new();
    store
        .seed_object_schema(s("v1"), s("alpha"), vec![], s("{}"), vec![])
        .unwrap();
    let in_default =
        obj(vec![("kind", jstr("alpha")), ("api_version", jstr("v1")), ("name", jstr("a"))]);
    let in_prod = obj(vec![
        ("kind", jstr("alpha")),
        ("api_version", jstr("v1")),
        ("name", jstr("a")),
        ("namespace", jstr("prod")),
    ]);
    store.apply_at(&in_default, 100, &ids(5)).unwrap();
    let fresh: Vec<u128> = (2000..2005).collect();
    store.apply_at(&in_prod, 100, &fresh).unwrap();
    assert_eq!(store.objects.len(), 2);
    store
        .delete(&DeleteObject { namespace: Some(s("prod")), kind: s("alpha"), name: s("a") })
        .unwrap();
    assert_eq!(store.objects.len(), 1);
    assert_eq!(store.objects[0].namespace, "default");
    // without a namespace the remaining row matches too
    store
        .delete(&DeleteObject { namespace: None, kind: s("alpha"), name: s("a") })
        .unwrap();
    assert_eq!(store.objects.len(), 0);
}

#[test]
fn get_resource_definitions_lists_seeded_schemas() {
    let mut store = Store::new();
    store
        .seed_object_schema(s("v1"), s("alpha"), vec![s("al")], s("{}"), vec![])
        .unwrap();
    store
        .seed_object_schema(s("v2"), s("beta"), vec![], s(r#"{"type":"object"}"#), vec![])
        .unwrap();
    let defs = store.get_resource_definition(&GetResourceDefinitionFilter {}).unwrap();
    assert_eq!(defs.len(), 2);
    assert_eq!(defs[0].kind, "alpha");
    assert_eq!(defs[0].aliases, vec![s("al")]);
    assert_eq!(defs[1].api_version, "v2");
    assert_eq!(defs[1].json_schema, r#"{"type":"object"}"#);
}

#[test]
fn no_schema_for_object_is_its_own_error() {
    let mut store = Store::new();
    let doc = obj(vec![("kind", jstr("ghost")), ("api_version", jstr("v1")), ("name", jstr("a"))]);
    match store.apply_at(&doc, 100, &ids(5)) {
        Err(DawnStoreError::NoSchemaForObjectFound { api_version, kind }) => {
            assert_eq!(api_version, "v1");
            assert_eq!(kind, "ghost");
        }
        other => panic!("unexpected outcome: {:?}", other.is_ok()),
    }
}

#[test]
fn broken_schema_text_is_a_creation_error() {
    let mut store = Store::new();
    store
        .seed_object_schema(s("v1"), s("alpha"), vec![], s("this is not json"), vec![])
        .unwrap();
    let doc = obj(vec![("kind", jstr("alpha")), ("api_version", jstr("v1")), ("name", jstr("a"))]);
    assert!(matches!(
        store.apply_at(&doc, 100, &ids(5)),
        Err(DawnStoreError::JsonSchemaValidatorCreationError(_))
    ));
}
