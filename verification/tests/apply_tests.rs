use dawnstore::backend::Store;
use dawnstore::error::DawnStoreError;
use dawnstore::json::JsonVal;
use dawnstore::models::{ForeignKey, ForeignKeyBehaviour, ForeignKeyType};

fn s(x: &str) -> String {
    String::from(x)
}

fn obj(fields: Vec<(&str, JsonVal)>) -> JsonVal {
    JsonVal::Obj(fields.into_iter().map(|(k, v)| (s(k), v)).collect())
}

fn jstr(x: &str) -> JsonVal {
    JsonVal::Str(s(x))
}

fn seed_empty(store: &mut Store) {
    store
        .seed_object_schema(s("v1"), s("empty"), vec![s("ep"), s("empties")], s("{}"), vec![])
        .unwrap();
}

fn seed_container(store: &mut Store) {
    let fk = ForeignKey {
        path: s("parent"),
        ty: ForeignKeyType::OneOptional,
        behaviour: ForeignKeyBehaviour::Fill,
        foreign_kind: Some(s("container")),
        parent_path: None,
    };
    store
        .seed_object_schema(s("v2"), s("container"), vec![], s("{}"), vec![fk])
        .unwrap();
}

fn seed_car(store: &mut Store) {
    let schema = r#"{"type":"object","required":["year"],"properties":{"year":{"type":"integer"}}}"#;
    store
        .seed_object_schema(s("v1"), s("car"), vec![], s(schema), vec![])
        .unwrap();
}

fn ids(n: u128) -> Vec<u128> {
    (1000..1000 + n).collect()
}

#[test]
fn s1_apply_then_reapply_keeps_identity() {
    let mut store = Store::new();
    seed_empty(&mut store);
    let doc = obj(vec![("kind", jstr("empty")), ("api_version", jstr("v1")), ("name", jstr("a"))]);
    let r1 = store.apply_at(&doc, 100, &ids(5)).unwrap();
    assert_eq!(r1.len(), 1);
    let id1 = r1[0].id;
    assert_eq!(r1[0].created_at, 100);
    assert_eq!(r1[0].updated_at, 100);
    let r2 = store.apply_at(&doc, 200, &ids(5)).unwrap();
    assert_eq!(r2.len(), 1);
    assert_eq!(r2[0].id, id1);
    assert_eq!(r2[0].created_at, 100);
    assert!(r2[0].updated_at > r1[0].updated_at);
    assert_eq!(r2[0].updated_at, 200);
    assert_eq!(store.objects.len(), 1);
}

#[test]
fn s2_validation_failure_rejects_bad_spec() {
    let mut store = Store::new();
    seed_car(&mut store);
    let doc = obj(vec![
        ("kind", jstr("car")),
        ("api_version", jstr("v1")),
        ("name", jstr("x")),
        ("year", jstr("oops")),
    ]);
    let r = store.apply_at(&doc, 100, &ids(5));
    match r {
        Err(DawnStoreError::ObjectValidationError { api_version, kind, name, validation_error }) => {
            assert_eq!(api_version, "v1");
            assert_eq!(kind, "car");
            assert_eq!(name, "x");
            // the validator's own diagnostic comes through
            assert!(!validation_error.is_empty());
        }
        other => panic!("unexpected outcome: {:?}", other.is_ok()),
    }
    assert_eq!(store.objects.len(), 0);
}

#[test]
fn s2_valid_spec_is_accepted() {
    let mut store = Store::new();
    seed_car(&mut store);
    let doc = obj(vec![
        ("kind", jstr("car")),
        ("api_version", jstr("v1")),
        ("name", jstr("x")),
        ("year", JsonVal::Num(s("1987"))),
    ]);
    let r = store.apply_at(&doc, 100, &ids(5)).unwrap();
    assert_eq!(r.len(), 1);
}

#[test]
fn s3_fk_target_in_same_batch() {
    let mut store = Store::new();
    seed_container(&mut store);
    let doc = JsonVal::Arr(vec![
        obj(vec![("name", jstr("p")), ("kind", jstr("container")), ("api_version", jstr("v2"))]),
        obj(vec![
            ("name", jstr("c")),
            ("kind", jstr("container")),
            ("api_version", jstr("v2")),
            ("parent", jstr("default/container/p")),
        ]),
    ]);
    let r = store.apply_at(&doc, 100, &ids(5)).unwrap();
    assert_eq!(r.len(), 2);
    assert_eq!(store.objects.len(), 2);
    assert_eq!(store.relations.len(), 1);
    let p_id = r[0].id;
    let c_id = r[1].id;
    assert_eq!(store.relations[0].object_id, c_id);
    assert_eq!(store.relations[0].foreign_object_id, p_id);
}

#[test]
fn s4_fk_missing_target_is_rejected() {
    let mut store = Store::new();
    seed_container(&mut store);
    let doc = JsonVal::Arr(vec![obj(vec![
        ("name", jstr("c")),
        ("kind", jstr("container")),
        ("api_version", jstr("v2")),
        ("parent", jstr("default/container/ghost")),
    ])]);
    let r = store.apply_at(&doc, 100, &ids(5));
    match r {
        Err(DawnStoreError::ObjectValidationForeignKeyNotFound { value, .. }) => {
            assert_eq!(value, "default/container/ghost");
        }
        other => panic!("unexpected outcome: {:?}", other.is_ok()),
    }
    assert_eq!(store.objects.len(), 0);
    assert_eq!(store.relations.len(), 0);
}

#[test]
fn s5_fk_short_form_inherits_namespace_and_kind() {
    let mut store = Store::new();
    seed_container(&mut store);
    let parent =
        obj(vec![("name", jstr("p")), ("kind", jstr("container")), ("api_version", jstr("v2"))]);
    store.apply_at(&parent, 100, &ids(5)).unwrap();
    let child = obj(vec![
        ("name", jstr("c")),
        ("kind", jstr("container")),
        ("api_version", jstr("v2")),
        ("parent", jstr("p")),
    ]);
    let more: Vec<u128> = (2000..2005).collect();
    let r = store.apply_at(&child, 200, &more).unwrap();
    assert_eq!(r.len(), 1);
    assert_eq!(store.relations.len(), 1);
}

#[test]
fn s6_reapplying_without_parent_deletes_stale_edge() {
    let mut store = Store::new();
    seed_container(&mut store);
    let doc = JsonVal::Arr(vec![
        obj(vec![("name", jstr("p")), ("kind", jstr("container")), ("api_version", jstr("v2"))]),
        obj(vec![
            ("name", jstr("c")),
            ("kind", jstr("container")),
            ("api_version", jstr("v2")),
            ("parent", jstr("default/container/p")),
        ]),
    ]);
    let r = store.apply_at(&doc, 100, &ids(5)).unwrap();
    let c_id = r[1].id;
    assert_eq!(store.relations.len(), 1);
    let again = obj(vec![
        ("name", jstr("c")),
        ("kind", jstr("container")),
        ("api_version", jstr("v2")),
    ]);
    store.apply_at(&again, 200, &ids(5)).unwrap();
    assert!(store.relations.iter().all(|r| r.object_id != c_id));
    assert_eq!(store.relations.len(), 0);
}

#[test]
fn p2_reapply_preserves_rows_and_relations() {
    let mut store = Store::new();
    seed_container(&mut store);
    let doc = JsonVal::Arr(vec![
        obj(vec![("name", jstr("p")), ("kind", jstr("container")), ("api_version", jstr("v2"))]),
        obj(vec![
            ("name", jstr("c")),
            ("kind", jstr("container")),
            ("api_version", jstr("v2")),
            ("parent", jstr("p")),
        ]),
    ]);
    let r1 = store.apply_at(&doc, 100, &ids(5)).unwrap();
    let rels1: Vec<_> = store.relations.clone();
    let r2 = store.apply_at(&doc, 200, &ids(50)).unwrap();
    assert_eq!(r1.len(), r2.len());
    for (a, b) in r1.iter().zip(r2.iter()) {
        assert_eq!(a.id, b.id);
        assert_eq!(a.created_at, b.created_at);
        assert_eq!(a.name, b.name);
        assert_eq!(a.kind, b.kind);
        assert_eq!(a.namespace, b.namespace);
        assert!(b.updated_at > a.updated_at);
    }
    assert_eq!(store.relations, rels1);
    assert_eq!(store.objects.len(), 2);
}

#[test]
fn p4_second_seed_is_a_no_op() {
    let mut store = Store::new();
    seed_empty(&mut store);
    assert_eq!(store.schemas.len(), 1);
    let first_schema = store.schemas[0].json_schema.clone();
    store
        .seed_object_schema(
            s("v1"),
            s("empty"),
            vec![],
            s(r#"{"type":"integer"}"#),
            vec![],
        )
        .unwrap();
    assert_eq!(store.schemas.len(), 1);
    assert_eq!(store.schemas[0].json_schema, first_schema);
    assert_eq!(store.constraints.len(), 0);
}

#[test]
fn p6_namespace_defaulting_shares_one_row() {
    let mut store = Store::new();
    seed_empty(&mut store);
    let without =
        obj(vec![("kind", jstr("empty")), ("api_version", jstr("v1")), ("name", jstr("n"))]);
    let with_default = obj(vec![
        ("kind", jstr("empty")),
        ("api_version", jstr("v1")),
        ("name", jstr("n")),
        ("namespace", jstr("default")),
    ]);
    let r1 = store.apply_at(&without, 100, &ids(5)).unwrap();
    let r2 = store.apply_at(&with_default, 200, &ids(5)).unwrap();
    assert_eq!(r1[0].id, r2[0].id);
    assert_eq!(store.objects.len(), 1);
    assert_eq!(r1[0].namespace, "default");
    // deleting with an explicit default namespace removes the same row
    let del = dawnstore::models::DeleteObject {
        namespace: Some(s("default")),
        kind: s("empty"),
        name: s("n"),
    };
    store.delete(&del).unwrap();
    assert_eq!(store.objects.len(), 0);
}

#[test]
fn apply_raw_draws_identity_and_clock() {
    let mut store = Store::new();
    seed_empty(&mut store);
    let doc = obj(vec![("kind", jstr("empty")), ("api_version", jstr("v1")), ("name", jstr("a"))]);
    let r1 = store.apply_raw(&doc).unwrap();
    assert_eq!(r1.len(), 1);
    let r2 = store.apply_raw(&doc).unwrap();
    assert_eq!(r2[0].id, r1[0].id);
    assert_eq!(r2[0].created_at, r1[0].created_at);
    assert_eq!(store.objects.len(), 1);
}

#[test]
fn duplicate_new_objects_in_one_batch_fail_like_a_unique_index() {
    let mut store = Store::new();
    seed_empty(&mut store);
    let one = obj(vec![("kind", jstr("empty")), ("api_version", jstr("v1")), ("name", jstr("a"))]);
    let two = obj(vec![("kind", jstr("empty")), ("api_version", jstr("v1")), ("name", jstr("a"))]);
    let doc = JsonVal::Arr(vec![one, two]);
    let r = store.apply_at(&doc, 100, &ids(5));
    assert!(matches!(r, Err(DawnStoreError::DatabaseError(_))));
    assert_eq!(store.objects.len(), 0);
}

#[test]
fn annotations_and_labels_are_kept() {
    let mut store = Store::new();
    seed_empty(&mut store);
    let doc = obj(vec![
        ("kind", jstr("empty")),
        ("api_version", jstr("v1")),
        ("name", jstr("a")),
        ("annotations", obj(vec![("team", jstr("core"))])),
        ("labels", obj(vec![("tier", jstr("gold"))])),
    ]);
    let r = store.apply_at(&doc, 100, &ids(5)).unwrap();
    let ann = r[0].annotations.as_ref().unwrap();
    assert_eq!(ann.len(), 1);
    assert_eq!(ann[0].0, "team");
    assert_eq!(ann[0].1, "core");
    let lab = r[0].labels.as_ref().unwrap();
    assert_eq!(lab[0].0, "tier");
    assert_eq!(lab[0].1, "gold");
}

#[test]
fn fk_errors_have_their_own_kinds() {
    let mut store = Store::new();
    // a One constraint whose path must be present
    let fk = ForeignKey {
        path: s("owner"),
        ty: ForeignKeyType::One,
        behaviour: ForeignKeyBehaviour::Fill,
        foreign_kind: Some(s("box")),
        parent_path: None,
    };
    store
        .seed_object_schema(s("v1"), s("box"), vec![], s("{}"), vec![fk])
        .unwrap();
    // absent path
    let missing = obj(vec![("kind", jstr("box")), ("api_version", jstr("v1")), ("name", jstr("a"))]);
    assert!(matches!(
        store.apply_at(&missing, 100, &ids(5)),
        Err(DawnStoreError::ObjectValidationMissingForeignKeyEntry { .. })
    ));
    // too many path components
    let bad_format = obj(vec![
        ("kind", jstr("box")),
        ("api_version", jstr("v1")),
        ("name", jstr("a")),
        ("owner", jstr("a/b/c/d")),
    ]);
    assert!(matches!(
        store.apply_at(&bad_format, 100, &ids(5)),
        Err(DawnStoreError::ObjectValidationWrongForeignKeyEntryFormat { .. })
    ));
    // the declared kind does not match
    let bad_kind = obj(vec![
        ("kind", jstr("box")),
        ("api_version", jstr("v1")),
        ("name", jstr("a")),
        ("owner", jstr("default/crate/x")),
    ]);
    assert!(matches!(
        store.apply_at(&bad_kind, 100, &ids(5)),
        Err(DawnStoreError::ObjectValidationWrongForeignKeyEntryKind { .. })
    ));
    // a wrong shape behind the path
    let bad_shape = obj(vec![
        ("kind", jstr("box")),
        ("api_version", jstr("v1")),
        ("name", jstr("a")),
        ("owner", JsonVal::Bool(true)),
    ]);
    assert!(matches!(
        store.apply_at(&bad_shape, 100, &ids(5)),
        Err(DawnStoreError::ObjectValidationMissingForeignKeyEntry { .. })
    ));
}

#[test]
fn dotted_paths_walk_nested_objects() {
    let mut store = Store::new();
    let fk = ForeignKey {
        path: s("network.gateway"),
        ty: ForeignKeyType::One,
        behaviour: ForeignKeyBehaviour::Ignore,
        foreign_kind: None,
        parent_path: None,
    };
    store
        .seed_object_schema(s("v1"), s("vm"), vec![], s("{}"), vec![fk])
        .unwrap();
    let gw = obj(vec![("kind", jstr("vm")), ("api_version", jstr("v1")), ("name", jstr("gw"))]);
    // the gateway itself has no network field: the One constraint rejects it
    assert!(matches!(
        store.apply_at(&gw, 100, &ids(5)),
        Err(DawnStoreError::ObjectValidationMissingForeignKeyEntry { .. })
    ));
    // a batch where the gateway points at itself through a nested field
    let self_ref = obj(vec![
        ("kind", jstr("vm")),
        ("api_version", jstr("v1")),
        ("name", jstr("gw")),
        ("network", obj(vec![("gateway", jstr("gw"))])),
    ]);
    let r = store.apply_at(&self_ref, 100, &ids(5)).unwrap();
    assert_eq!(r.len(), 1);
    assert_eq!(store.relations.len(), 1);
    assert_eq!(store.relations[0].object_id, store.relations[0].foreign_object_id);
}

#[test]
fn reference_arrays_must_hold_only_strings() {
    let mut store = Store::new();
    let fk = ForeignKey {
        path: s("parts"),
        ty: ForeignKeyType::NoneOrMany,
        behaviour: ForeignKeyBehaviour::Fill,
        foreign_kind: None,
        parent_path: None,
    };
    store
        .seed_object_schema(s("v1"), s("set"), vec![], s("{}"), vec![fk])
        .unwrap();
    let doc = JsonVal::Arr(vec![
        obj(vec![("kind", jstr("set")), ("api_version", jstr("v1")), ("name", jstr("a"))]),
        obj(vec![("kind", jstr("set")), ("api_version", jstr("v1")), ("name", jstr("b"))]),
        obj(vec![
            ("kind", jstr("set")),
            ("api_version", jstr("v1")),
            ("name", jstr("c")),
            ("parts", JsonVal::Arr(vec![jstr("a"), jstr("b")])),
        ]),
    ]);
    let r = store.apply_at(&doc, 100, &ids(5)).unwrap();
    assert_eq!(r.len(), 3);
    assert_eq!(store.relations.len(), 2);
    // an array holding a non-string is a shape error, not a partial read
    let mixed = JsonVal::Arr(vec![obj(vec![
        ("kind", jstr("set")),
        ("api_version", jstr("v1")),
        ("name", jstr("d")),
        ("parts", JsonVal::Arr(vec![jstr("a"), JsonVal::Num(s("3"))])),
    ])]);
    assert!(matches!(
        store.apply_at(&mixed, 200, &ids(5)),
        Err(DawnStoreError::ObjectValidationMissingForeignKeyEntry { .. })
    ));
    assert_eq!(store.objects.len(), 3);
}
