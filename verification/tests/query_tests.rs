use dawnstore::backend::get_api_object_infos_with_filter;
use dawnstore::data_models::{ForeignKeyConstraint, Object, ObjectSchema, Relation};
use dawnstore::json::JsonVal;
use dawnstore::models::{ForeignKeyBehaviour, ForeignKeyType, GetObjectInfosFilter};
use dawnstore::queries;

fn s(x: &str) -> String {
    String::from(x)
}

fn row(id: u128, ns: &str, kind: &str, name: &str) -> Object {
    Object {
        id,
        string_id: format!("{ns}/{kind}/{name}"),
        api_version: s("v1"),
        name: s(name),
        kind: s(kind),
        created_at: 10,
        updated_at: 10,
        namespace: s(ns),
        annotations: Vec::new(),
        labels: Vec::new(),
        owners: Vec::new(),
        spec: JsonVal::Obj(Vec::new()),
    }
}

fn schema(id: u128, av: &str, kind: &str) -> ObjectSchema {
    ObjectSchema {
        id,
        api_version: s(av),
        kind: s(kind),
        aliases: Vec::new(),
        json_schema: s("{}"),
    }
}

fn fkc(id: u128, av: &str, kind: &str, path: &str) -> ForeignKeyConstraint {
    ForeignKeyConstraint {
        id,
        api_version: s(av),
        kind: s(kind),
        key_path: s(path),
        parent_key_path: None,
        ty: ForeignKeyType::One,
        behaviour: ForeignKeyBehaviour::Fill,
        foreign_key_kind: None,
    }
}

#[test]
fn object_inserts_reject_duplicates() {
    let mut table: Vec<Object> = Vec::new();
    queries::insert_object(&mut table, &row(1, "default", "a", "x")).unwrap();
    assert!(queries::insert_object(&mut table, &row(1, "default", "a", "y")).is_err());
    assert!(queries::insert_object(&mut table, &row(2, "default", "a", "x")).is_err());
    queries::insert_object(&mut table, &row(2, "default", "a", "y")).unwrap();
    assert_eq!(table.len(), 2);
    let batch = vec![row(3, "default", "a", "z"), row(3, "default", "a", "w")];
    assert!(queries::insert_multiple_objects(&mut table, &batch).is_err());
}

#[test]
fn object_updates_rewrite_mutable_columns_only() {
    let mut table: Vec<Object> = Vec::new();
    queries::insert_object(&mut table, &row(1, "default", "a", "x")).unwrap();
    let mut newer = row(1, "default", "a", "renamed");
    newer.updated_at = 99;
    queries::update_object(&mut table, &newer);
    assert_eq!(table[0].name, "renamed");
    assert_eq!(table[0].updated_at, 99);
    assert_eq!(table[0].created_at, 10);
    // update_object leaves the stored identifier alone
    assert_eq!(table[0].string_id, "default/a/x");
    // the batch update rewrites the identifier too
    let mut batch_row = row(1, "default", "a", "again");
    batch_row.updated_at = 100;
    queries::update_multiple_objects(&mut table, &vec![batch_row]).unwrap();
    assert_eq!(table[0].string_id, "default/a/again");
    assert_eq!(table[0].created_at, 10);
    // an unknown id touches nothing
    queries::update_multiple_objects(&mut table, &vec![row(9, "default", "a", "ghost")]).unwrap();
    assert_eq!(table.len(), 1);
    // moving the identifier onto another row is a unique violation
    queries::insert_object(&mut table, &row(2, "default", "a", "other")).unwrap();
    let clash = row(2, "default", "a", "again");
    assert!(queries::update_multiple_objects(&mut table, &vec![clash]).is_err());
}

#[test]
fn object_lookups_select_by_id_and_string_id() {
    let mut table: Vec<Object> = Vec::new();
    queries::insert_object(&mut table, &row(1, "default", "a", "x")).unwrap();
    queries::insert_object(&mut table, &row(2, "prod", "a", "x")).unwrap();
    assert_eq!(queries::get_object(&table, 2).unwrap().namespace, "prod");
    assert!(queries::get_object(&table, 9).is_none());
    let picked = queries::get_objects(&table, &vec![2, 7]);
    assert_eq!(picked.len(), 1);
    assert_eq!(picked[0].id, 2);
    assert!(queries::object_exists(&table, &s("default/a/x")));
    assert!(!queries::object_exists(&table, &s("default/a/y")));
    let infos = queries::get_object_infos(&table, &vec![s("prod/a/x")]);
    assert_eq!(infos.len(), 1);
    assert_eq!(infos[0].id, 2);
    assert_eq!(infos[0].created_at, 10);
}

#[test]
fn relation_crud_follows_the_composite_key() {
    let mut table: Vec<Relation> = Vec::new();
    let edge = Relation { object_id: 1, foreign_object_id: 2, foreign_key_id: 3 };
    queries::insert_relation(&mut table, edge).unwrap();
    assert!(queries::insert_relation(&mut table, edge).is_err());
    assert_eq!(queries::get_relation(&table, 1, 2, 3), Some(edge));
    assert_eq!(queries::get_relation(&table, 1, 2, 4), None);
    assert_eq!(queries::delete_relation(&mut table, 1, 2, 3), 1);
    assert_eq!(queries::delete_relation(&mut table, 1, 2, 3), 0);
    assert!(table.is_empty());
}

#[test]
fn schema_crud_keeps_the_key_unique() {
    let mut table: Vec<ObjectSchema> = Vec::new();
    queries::insert_multiple_object_schemas(
        &mut table,
        &vec![schema(1, "v1", "a"), schema(2, "v1", "b")],
    )
    .unwrap();
    assert!(queries::insert_multiple_object_schemas(&mut table, &vec![schema(3, "v1", "a")])
        .is_err());
    assert!(queries::get_object_schema(&table, &s("v1"), &s("b")).is_some());
    // rewriting a key onto another row is refused
    let mut moved = schema(2, "v1", "a");
    moved.json_schema = s(r#"{"type":"object"}"#);
    assert!(queries::update_object_schema(&mut table, &moved).is_err());
    // rewriting in place is fine; aliases stay as they were
    let mut kept = schema(2, "v2", "b");
    kept.json_schema = s(r#"{"type":"object"}"#);
    queries::update_object_schema(&mut table, &kept).unwrap();
    assert_eq!(table[1].api_version, "v2");
    assert_eq!(table[1].json_schema, r#"{"type":"object"}"#);
    queries::delete_object_schema(&mut table, 1);
    assert_eq!(table.len(), 1);
    assert!(queries::get_object_schema(&table, &s("v1"), &s("a")).is_none());
}

#[test]
fn constraint_crud_selects_by_key_and_id() {
    let mut table: Vec<ForeignKeyConstraint> = Vec::new();
    queries::insert_foreign_key_constraints(&mut table, &fkc(1, "v1", "a", "parent"));
    queries::insert_foreign_key_constraints(&mut table, &fkc(2, "v1", "b", "owner"));
    let of_a = queries::get_foreign_key_constraints(&table, &s("v1"), &s("a"));
    assert_eq!(of_a.len(), 1);
    assert_eq!(of_a[0].key_path, "parent");
    let mut renamed = fkc(1, "v1", "a", "father");
    renamed.ty = ForeignKeyType::NoneOrMany;
    assert!(queries::update_foreign_key_constraints(&mut table, &renamed));
    assert_eq!(table[0].key_path, "father");
    assert!(!queries::update_foreign_key_constraints(&mut table, &fkc(9, "v1", "a", "x")));
    assert!(queries::delete_foreign_key_constraints(&mut table, 2));
    assert!(!queries::delete_foreign_key_constraints(&mut table, 2));
    assert_eq!(table.len(), 1);
}

fn info_filter() -> GetObjectInfosFilter {
    GetObjectInfosFilter {
        namespace: None,
        kind: None,
        name: None,
        name_search_string: None,
        page: None,
        page_size: None,
    }
}

#[test]
fn info_listing_searches_names_case_insensitively() {
    let mut table: Vec<Object> = Vec::new();
    queries::insert_object(&mut table, &row(1, "default", "a", "WebServer")).unwrap();
    queries::insert_object(&mut table, &row(2, "default", "a", "database")).unwrap();
    queries::insert_object(&mut table, &row(3, "prod", "b", "webclient")).unwrap();
    let mut f = info_filter();
    f.name_search_string = Some(s("WEB"));
    let infos = get_api_object_infos_with_filter(&table, &f);
    assert_eq!(infos.len(), 2);
    // ordered by kind, then name
    assert_eq!(infos[0].name, "WebServer");
    assert_eq!(infos[1].name, "webclient");
    // a search with no occurrence selects nothing
    let mut none = info_filter();
    none.name_search_string = Some(s("mainframe"));
    assert!(get_api_object_infos_with_filter(&table, &none).is_empty());
}

#[test]
fn info_listing_filters_and_pages() {
    let mut table: Vec<Object> = Vec::new();
    queries::insert_object(&mut table, &row(1, "default", "a", "x")).unwrap();
    queries::insert_object(&mut table, &row(2, "prod", "a", "y")).unwrap();
    queries::insert_object(&mut table, &row(3, "prod", "b", "z")).unwrap();
    let mut by_ns = info_filter();
    by_ns.namespace = Some(s("prod"));
    assert_eq!(get_api_object_infos_with_filter(&table, &by_ns).len(), 2);
    let mut by_kind = info_filter();
    by_kind.kind = Some(s("b"));
    let infos = get_api_object_infos_with_filter(&table, &by_kind);
    assert_eq!(infos.len(), 1);
    assert_eq!(infos[0].id, 3);
    let mut paged = info_filter();
    paged.page_size = Some(2);
    paged.page = Some(1);
    let infos = get_api_object_infos_with_filter(&table, &paged);
    assert_eq!(infos.len(), 1);
    assert_eq!(infos[0].name, "z");
}
