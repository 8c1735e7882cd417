//! The apply pipeline: turning a raw document into a flat list of
//! objects, validating each against its registered schema, and
//! extracting its declared references. Every step is fixed by a spec
//! function; the executable code is proved to compute exactly that.
use vstd::prelude::*;
use vstd::string::StringExecFns;

use crate::data_models::{ForeignKeyConstraint, ForeignKeyConstraintV, ObjectSchema, ObjectSchemaV};
use crate::error::{DawnStoreError, ErrV};
use crate::json::{get_field, obj_get, JsonVal, Jv};
use crate::models::{clone_opt_string, ForeignKeyType, Object, ObjectV, StringMap};
use crate::queries::{filter_fkcs, has_schema, schema_of, schemas_v, wf_schemas};
use crate::text::{spec_split, spec_string_id, views};

verus! {

// ---------------------------------------------------------------------
// Normalization: one raw JSON document to a flat list of input objects.
// ---------------------------------------------------------------------

/// An optional string field: absent and `null` both mean none, any
/// value other than a string is malformed.
pub open spec fn opt_str_field(m: Seq<(Seq<char>, Jv)>, k: Seq<char>) -> Result<
    Option<Seq<char>>,
    (),
> {
    match obj_get(m, k) {
        Option::None => Ok(Option::None),
        Option::Some(v) => match v {
            Jv::Null => Ok(Option::None),
            Jv::Str(s) => Ok(Option::Some(s)),
            _ => Err(()),
        },
    }
}

/// The entries of a JSON object read as a string-to-string map.
pub open spec fn str_pairs(f: Seq<(Seq<char>, Jv)>) -> Result<Seq<(Seq<char>, Seq<char>)>, ()>
    decreases f.len(),
{
    if f.len() == 0 {
        Ok(Seq::empty())
    } else {
        match str_pairs(f.drop_last()) {
            Err(e) => Err(e),
            Ok(rest) => match f.last().1 {
                Jv::Str(s) => Ok(rest.push((f.last().0, s))),
                _ => Err(()),
            },
        }
    }
}

/// An optional map field: absent and `null` mean none, any value other
/// than an all-string object is malformed.
pub open spec fn opt_map_field(m: Seq<(Seq<char>, Jv)>, k: Seq<char>) -> Result<
    Option<Seq<(Seq<char>, Seq<char>)>>,
    (),
> {
    match obj_get(m, k) {
        Option::None => Ok(Option::None),
        Option::Some(v) => match v {
            Jv::Null => Ok(Option::None),
            Jv::Obj(f) => match str_pairs(f) {
                Ok(pairs) => Ok(Option::Some(pairs)),
                Err(e) => Err(e),
            },
            _ => Err(()),
        },
    }
}

/// The metadata keys; every other top-level field belongs to the spec.
pub open spec fn is_meta_key(k: Seq<char>) -> bool {
    ||| k == "name"@
    ||| k == "kind"@
    ||| k == "api_version"@
    ||| k == "namespace"@
    ||| k == "annotations"@
    ||| k == "labels"@
}

/// The non-metadata fields, in input order.
pub open spec fn rest_fields(m: Seq<(Seq<char>, Jv)>) -> Seq<(Seq<char>, Jv)>
    decreases m.len(),
{
    if m.len() == 0 {
        Seq::empty()
    } else {
        rest_fields(m.drop_last()) + (if is_meta_key(m.last().0) {
            Seq::empty()
        } else {
            seq![m.last()]
        })
    }
}

pub open spec fn bad_object_err() -> ErrV {
    ErrV::DeserialisationError("input object is not a JSON object"@)
}

pub open spec fn bad_field_err() -> ErrV {
    ErrV::DeserialisationError("object field has the wrong shape"@)
}

/// One element of the input read as an object: `name` is required, the
/// other metadata fields are optional, everything else is the spec.
pub open spec fn norm_obj(o: Jv) -> Result<ObjectV, ErrV> {
    match o {
        Jv::Obj(m) => match obj_get(m, "name"@) {
            Option::Some(v) => match v {
                Jv::Str(name) => {
                    if opt_str_field(m, "kind"@) is Err || opt_str_field(m, "api_version"@) is Err
                        || opt_str_field(m, "namespace"@) is Err || opt_map_field(
                        m,
                        "annotations"@,
                    ) is Err || opt_map_field(m, "labels"@) is Err {
                        Err(bad_field_err())
                    } else {
                        Ok(
                            ObjectV {
                                name: name,
                                kind: opt_str_field(m, "kind"@)->Ok_0,
                                api_version: opt_str_field(m, "api_version"@)->Ok_0,
                                namespace: opt_str_field(m, "namespace"@)->Ok_0,
                                annotations: opt_map_field(m, "annotations"@)->Ok_0,
                                labels: opt_map_field(m, "labels"@)->Ok_0,
                                spec: Jv::Obj(rest_fields(m)),
                            },
                        )
                    }
                },
                _ => Err(bad_field_err()),
            },
            Option::None => Err(bad_field_err()),
        },
        _ => Err(bad_object_err()),
    }
}

/// Each element of an array in order; the first malformed one wins.
pub open spec fn norm_list(items: Seq<Jv>) -> Result<Seq<ObjectV>, ErrV>
    decreases items.len(),
{
    if items.len() == 0 {
        Ok(Seq::empty())
    } else {
        match norm_obj(items.first()) {
            Err(e) => Err(e),
            Ok(o) => match norm_list(items.drop_first()) {
                Err(e) => Err(e),
                Ok(rest) => Ok(seq![o] + rest),
            },
        }
    }
}

/// A `List` envelope override applied to every element.
pub open spec fn apply_envelope(
    objs: Seq<ObjectV>,
    object_kind: Option<Seq<char>>,
    object_api_version: Option<Seq<char>>,
) -> Seq<ObjectV> {
    objs.map_values(
        |o: ObjectV|
            ObjectV {
                kind: match object_kind {
                    Option::Some(k) => Option::Some(k),
                    Option::None => o.kind,
                },
                api_version: match object_api_version {
                    Option::Some(a) => Option::Some(a),
                    Option::None => o.api_version,
                },
                ..o
            },
    )
}

/// The string carried by an envelope field, when it is a string.
pub open spec fn envelope_str(m: Seq<(Seq<char>, Jv)>, k: Seq<char>) -> Option<Seq<char>> {
    match obj_get(m, k) {
        Option::Some(v) => match v {
            Jv::Str(s) => Option::Some(s),
            _ => Option::None,
        },
        Option::None => Option::None,
    }
}

/// A raw document normalized to a flat object list: an array of
/// objects, a `List` envelope, a single object (with or without a
/// `kind` of its own), or a rejected root.
pub open spec fn norm_doc(d: Jv) -> Result<Seq<ObjectV>, ErrV> {
    match d {
        Jv::Arr(items) => norm_list(items),
        Jv::Obj(m) => if obj_get(m, "kind"@) == Some(Jv::Str("List"@)) {
            match obj_get(m, "list"@) {
                Option::None => Err(ErrV::InvalidInputObjectMissingKindField),
                Option::Some(lv) => match lv {
                    Jv::Arr(items) => match norm_list(items) {
                        Err(e) => Err(e),
                        Ok(objs) => Ok(
                            apply_envelope(
                                objs,
                                envelope_str(m, "object_kind"@),
                                envelope_str(m, "object_api_version"@),
                            ),
                        ),
                    },
                    _ => Err(bad_object_err()),
                },
            }
        } else {
            match norm_obj(d) {
                Err(e) => Err(e),
                Ok(o) => Ok(seq![o]),
            }
        },
        _ => Err(ErrV::InvalidRootInputObject),
    }
}

fn bad_object_exec() -> (e: DawnStoreError)
    ensures
        e@ == bad_object_err(),
{
    DawnStoreError::DeserialisationError(String::from_str("input object is not a JSON object"))
}

fn bad_field_exec() -> (e: DawnStoreError)
    ensures
        e@ == bad_field_err(),
{
    DawnStoreError::DeserialisationError(String::from_str("object field has the wrong shape"))
}

/// Reads an optional string field as `opt_str_field` fixes it.
fn read_opt_str(m: &Vec<(String, JsonVal)>, k: &String) -> (r: Result<Option<String>, ()>)
    ensures
        match r {
            Ok(o) => opt_str_field(JsonVal::deep_obj(m@), k@) == Ok::<_, ()>(
                crate::models::opt_sv(o),
            ),
            Err(()) => opt_str_field(JsonVal::deep_obj(m@), k@) is Err,
        },
{
    match get_field(m, k) {
        Option::None => Ok(Option::None),
        Option::Some(v) => match v {
            JsonVal::Null => Ok(Option::None),
            JsonVal::Str(s) => Ok(Option::Some(s.clone())),
            _ => Err(()),
        },
    }
}

/// Reads an optional string map field as `opt_map_field` fixes it.
#[verifier::loop_isolation(false)]
fn read_opt_map(m: &Vec<(String, JsonVal)>, k: &String) -> (r: Result<Option<StringMap>, ()>)
    ensures
        match r {
            Ok(o) => opt_map_field(JsonVal::deep_obj(m@), k@) == Ok::<_, ()>(
                crate::models::opt_smap_v(o),
            ),
            Err(()) => opt_map_field(JsonVal::deep_obj(m@), k@) is Err,
        },
{
    match get_field(m, k) {
        Option::None => Ok(Option::None),
        Option::Some(v) => match v {
            JsonVal::Null => Ok(Option::None),
            JsonVal::Obj(f) => {
                let ghost gf = JsonVal::deep_obj(f@);
                proof {
                    broadcast use crate::json::lemma_deep_obj;

                }
                let mut out: StringMap = Vec::new();
                let mut i: usize = 0;
                proof {
                    assert(gf.take(0) =~= Seq::<(Seq<char>, Jv)>::empty());
                    assert(str_pairs(gf.take(0)) == Ok::<_, ()>(
                        crate::models::smap_v(out@),
                    )) by {
                        assert(crate::models::smap_v(out@) =~= Seq::<(Seq<char>, Seq<char>)>::empty());
                    }
                }
                while i < f.len()
                    invariant
                        0 <= i <= f.len(),
                        str_pairs(gf.take(i as int)) == Ok::<_, ()>(crate::models::smap_v(out@)),
                    decreases f.len() - i,
                {
                    proof {
                        assert(gf.take(i + 1).drop_last() =~= gf.take(i as int));
                        assert(gf.take(i + 1).last() == gf[i as int]);
                    }
                    let ghost out0 = crate::models::smap_v(out@);
                    match &f[i].1 {
                        JsonVal::Str(s) => {
                            let key = f[i].0.clone();
                            let val = s.clone();
                            out.push((key, val));
                            proof {
                                assert(crate::models::smap_v(out@) =~= out0.push(
                                    (gf[i as int].0, gf[i as int].1->Str_0),
                                ));
                            }
                        },
                        _ => {
                            proof {
                                assert(str_pairs(gf.take(i + 1)) is Err);
                                lemma_str_pairs_err(gf, i + 1);
                            }
                            return Err(());
                        },
                    }
                    i = i + 1;
                }
                proof {
                    assert(gf.take(f@.len() as int) =~= gf);
                }
                Ok(Option::Some(out))
            },
            _ => Err(()),
        },
    }
}

/// A malformed prefix makes the whole map malformed.
proof fn lemma_str_pairs_err(f: Seq<(Seq<char>, Jv)>, i: int)
    requires
        0 <= i <= f.len(),
        str_pairs(f.take(i)) is Err,
    ensures
        str_pairs(f) is Err,
    decreases f.len() - i,
{
    if i < f.len() {
        assert(f.take(i + 1).drop_last() =~= f.take(i));
        lemma_str_pairs_err(f, i + 1);
    } else {
        assert(f.take(i) =~= f);
    }
}

/// Tests whether a key is one of the metadata keys.
fn is_meta_key_exec(k: &String) -> (r: bool)
    ensures
        r == is_meta_key(k@),
{
    *k == String::from_str("name") || *k == String::from_str("kind") || *k == String::from_str(
        "api_version",
    ) || *k == String::from_str("namespace") || *k == String::from_str("annotations") || *k
        == String::from_str("labels")
}

/// One element of the input read as an object, as `norm_obj` fixes it.
#[verifier::loop_isolation(false)]
pub fn norm_obj_exec(o: &JsonVal) -> (r: Result<Object, DawnStoreError>)
    ensures
        match r {
            Ok(obj) => norm_obj(o@) == Ok::<_, ErrV>(obj@),
            Err(e) => norm_obj(o@) == Err::<ObjectV, _>(e@),
        },
{
    let m = match o {
        JsonVal::Obj(m) => m,
        _ => {
            return Err(bad_object_exec());
        },
    };
    let ghost gm = JsonVal::deep_obj(m@);
    let name = match get_field(m, &String::from_str("name")) {
        Option::Some(v) => match v {
            JsonVal::Str(s) => s.clone(),
            _ => {
                return Err(bad_field_exec());
            },
        },
        Option::None => {
            return Err(bad_field_exec());
        },
    };
    let kind = match read_opt_str(m, &String::from_str("kind")) {
        Ok(x) => x,
        Err(()) => {
            return Err(bad_field_exec());
        },
    };
    let api_version = match read_opt_str(m, &String::from_str("api_version")) {
        Ok(x) => x,
        Err(()) => {
            return Err(bad_field_exec());
        },
    };
    let namespace = match read_opt_str(m, &String::from_str("namespace")) {
        Ok(x) => x,
        Err(()) => {
            return Err(bad_field_exec());
        },
    };
    let annotations = match read_opt_map(m, &String::from_str("annotations")) {
        Ok(x) => x,
        Err(()) => {
            return Err(bad_field_exec());
        },
    };
    let labels = match read_opt_map(m, &String::from_str("labels")) {
        Ok(x) => x,
        Err(()) => {
            return Err(bad_field_exec());
        },
    };
    // everything that is not metadata is the spec
    proof {
        broadcast use crate::json::lemma_deep_obj;

    }
    let mut rest: Vec<(String, JsonVal)> = Vec::new();
    let mut i: usize = 0;
    proof {
        assert(gm.take(0) =~= Seq::<(Seq<char>, Jv)>::empty());
        assert(JsonVal::deep_obj(rest@) =~= rest_fields(gm.take(0)));
    }
    while i < m.len()
        invariant
            0 <= i <= m.len(),
            JsonVal::deep_obj(rest@) == rest_fields(gm.take(i as int)),
        decreases m.len() - i,
    {
        proof {
            assert(gm.take(i + 1).drop_last() =~= gm.take(i as int));
            assert(gm.take(i + 1).last() == gm[i as int]);
        }
        let ghost rest0 = JsonVal::deep_obj(rest@);
        if !is_meta_key_exec(&m[i].0) {
            let key = m[i].0.clone();
            let val = crate::json::deep_copy(&m[i].1);
            rest.push((key, val));
            proof {
                assert(JsonVal::deep_obj(rest@) =~= rest0.push(gm[i as int]));
            }
        }
        proof {
            assert(JsonVal::deep_obj(rest@) =~= rest_fields(gm.take(i + 1)));
        }
        i = i + 1;
    }
    proof {
        assert(gm.take(m@.len() as int) =~= gm);
    }
    Ok(
        Object {
            name,
            kind,
            api_version,
            namespace,
            annotations,
            labels,
            spec: JsonVal::Obj(rest),
        },
    )
}

pub open spec fn objs_v(s: Seq<Object>) -> Seq<ObjectV> {
    s.map_values(|o: Object| o@)
}

/// A clean prefix and then one more element.
proof fn lemma_norm_list_snoc(s: Seq<Jv>, i: int)
    requires
        0 <= i < s.len(),
        norm_list(s.take(i)) is Ok,
    ensures
        norm_list(s.take(i + 1)) == match norm_obj(s[i]) {
            Ok(o) => Ok::<_, ErrV>(norm_list(s.take(i))->Ok_0.push(o)),
            Err(e) => Err(e),
        },
    decreases i,
{
    if i == 0 {
        assert(s.take(1).first() == s[0]);
        assert(s.take(1).drop_first() =~= Seq::<Jv>::empty());
        assert(s.take(0) =~= Seq::<Jv>::empty());
        match norm_obj(s[0]) {
            Ok(o) => {
                assert(norm_list(s.take(1)) == Ok::<_, ErrV>(seq![o] + Seq::<ObjectV>::empty()));
                assert(seq![o] + Seq::<ObjectV>::empty() =~= Seq::<ObjectV>::empty().push(o));
            },
            Err(_) => {},
        }
    } else {
        assert(s.take(i + 1).first() == s.first());
        assert(s.take(i).first() == s.first());
        assert(norm_obj(s.first()) is Ok);
        let o0 = norm_obj(s.first())->Ok_0;
        assert(s.take(i + 1).drop_first() =~= s.drop_first().take(i));
        assert(s.take(i).drop_first() =~= s.drop_first().take(i - 1));
        lemma_norm_list_snoc(s.drop_first(), i - 1);
        assert(s.drop_first()[i - 1] == s[i]);
        match norm_obj(s[i]) {
            Ok(o) => {
                assert(norm_list(s.drop_first().take(i)) == Ok::<_, ErrV>(
                    norm_list(s.drop_first().take(i - 1))->Ok_0.push(o),
                ));
                assert(norm_list(s.take(i + 1))->Ok_0 =~= norm_list(s.take(i))->Ok_0.push(o));
            },
            Err(_) => {},
        }
    }
}

/// The first malformed element decides the whole list.
proof fn lemma_norm_list_err(s: Seq<Jv>, i: int)
    requires
        0 <= i < s.len(),
        norm_list(s.take(i)) is Ok,
        norm_obj(s[i]) is Err,
    ensures
        norm_list(s) == Err::<Seq<ObjectV>, _>(norm_obj(s[i])->Err_0),
    decreases i,
{
    if i == 0 {
        assert(s.first() == s[0]);
    } else {
        assert(s.take(i).first() == s.first());
        assert(norm_obj(s.first()) is Ok);
        assert(s.take(i).drop_first() =~= s.drop_first().take(i - 1));
        lemma_norm_list_err(s.drop_first(), i - 1);
        assert(s.drop_first()[i - 1] == s[i]);
    }
}

/// Normalizes each element of an array, as `norm_list` fixes it.
#[verifier::loop_isolation(false)]
pub fn norm_list_exec(items: &Vec<JsonVal>) -> (r: Result<Vec<Object>, DawnStoreError>)
    ensures
        match r {
            Ok(objs) => norm_list(JsonVal::deep_arr(items@)) == Ok::<_, ErrV>(objs_v(objs@)),
            Err(e) => norm_list(JsonVal::deep_arr(items@)) == Err::<Seq<ObjectV>, _>(e@),
        },
{
    let ghost ga = JsonVal::deep_arr(items@);
    proof {
        broadcast use crate::json::lemma_deep_arr;

    }
    let mut out: Vec<Object> = Vec::new();
    let mut i: usize = 0;
    proof {
        assert(ga.take(0) =~= Seq::<Jv>::empty());
        assert(objs_v(out@) =~= Seq::<ObjectV>::empty());
    }
    while i < items.len()
        invariant
            0 <= i <= items.len(),
            norm_list(ga.take(i as int)) == Ok::<_, ErrV>(objs_v(out@)),
        decreases items.len() - i,
    {
        proof {
            lemma_norm_list_snoc(ga, i as int);
        }
        match norm_obj_exec(&items[i]) {
            Ok(obj) => {
                let ghost out0 = objs_v(out@);
                out.push(obj);
                proof {
                    assert(objs_v(out@) =~= out0.push(obj@));
                }
            },
            Err(e) => {
                proof {
                    lemma_norm_list_err(ga, i as int);
                }
                return Err(e);
            },
        }
        i = i + 1;
    }
    proof {
        assert(ga.take(items@.len() as int) =~= ga);
    }
    Ok(out)
}

/// Normalizes a raw document to a flat object list, as `norm_doc`
/// fixes it: an array, a `List` envelope whose `object_kind` and
/// `object_api_version` override every element, a single object, or a
/// rejected root.
#[verifier::loop_isolation(false)]
pub fn build_base_objects_from_raw_value(data: &JsonVal) -> (r: Result<
    Vec<Object>,
    DawnStoreError,
>)
    ensures
        match r {
            Ok(objs) => norm_doc(data@) == Ok::<_, ErrV>(objs_v(objs@)),
            Err(e) => norm_doc(data@) == Err::<Seq<ObjectV>, _>(e@),
        },
{
    match data {
        JsonVal::Arr(items) => norm_list_exec(items),
        JsonVal::Obj(m) => {
            let is_list = match get_field(m, &String::from_str("kind")) {
                Option::Some(v) => match v {
                    JsonVal::Str(s) => *s == String::from_str("List"),
                    _ => false,
                },
                Option::None => false,
            };
            if is_list {
                let lv = match get_field(m, &String::from_str("list")) {
                    Option::Some(v) => v,
                    Option::None => {
                        return Err(DawnStoreError::InvalidInputObjectMissingKindField);
                    },
                };
                let items = match lv {
                    JsonVal::Arr(items) => items,
                    _ => {
                        return Err(bad_object_exec());
                    },
                };
                let mut objs = match norm_list_exec(items) {
                    Ok(objs) => objs,
                    Err(e) => {
                        return Err(e);
                    },
                };
                let object_kind = match get_field(m, &String::from_str("object_kind")) {
                    Option::Some(v) => match v {
                        JsonVal::Str(s) => Option::Some(s.clone()),
                        _ => Option::None,
                    },
                    Option::None => Option::None,
                };
                let object_api_version = match get_field(
                    m,
                    &String::from_str("object_api_version"),
                ) {
                    Option::Some(v) => match v {
                        JsonVal::Str(s) => Option::Some(s.clone()),
                        _ => Option::None,
                    },
                    Option::None => Option::None,
                };
                let ghost gm = JsonVal::deep_obj(m@);
                let ghost base = objs_v(objs@);
                let ghost gok = envelope_str(gm, "object_kind"@);
                let ghost gav = envelope_str(gm, "object_api_version"@);
                proof {
                    assert(crate::models::opt_sv(object_kind) == gok);
                    assert(crate::models::opt_sv(object_api_version) == gav);
                }
                let n = objs.len();
                let mut i: usize = 0;
                while i < n
                    invariant
                        0 <= i <= n,
                        objs@.len() == n,
                        base.len() == n,
                        forall|j: int|
                            i <= j < n ==> (#[trigger] objs@[j])@ == base[j],
                        forall|j: int|
                            0 <= j < i ==> (#[trigger] objs@[j])@ == apply_envelope(
                                base,
                                gok,
                                gav,
                            )[j],
                    decreases n - i,
                {
                    if let Option::Some(k) = &object_kind {
                        let nk = k.clone();
                        objs[i].kind = Option::Some(nk);
                    }
                    if let Option::Some(a) = &object_api_version {
                        let na = a.clone();
                        objs[i].api_version = Option::Some(na);
                    }
                    proof {
                        assert(objs@[i as int]@ == apply_envelope(base, gok, gav)[i as int]);
                    }
                    i = i + 1;
                }
                proof {
                    assert(objs_v(objs@) =~= apply_envelope(base, gok, gav));
                }
                Ok(objs)
            } else {
                match norm_obj_exec(data) {
                    Ok(obj) => {
                        let ghost go = obj@;
                        let mut one: Vec<Object> = Vec::new();
                        one.push(obj);
                        proof {
                            assert(objs_v(one@) =~= seq![go]);
                        }
                        Ok(one)
                    },
                    Err(e) => Err(e),
                }
            }
        },
        _ => Err(DawnStoreError::InvalidRootInputObject),
    }
}

// ---------------------------------------------------------------------
// Foreign keys: walking the spec, reading references, resolving names.
// ---------------------------------------------------------------------

/// Walking the spec along dotted path segments; only object fields are
/// entered.
pub open spec fn walk_path(v: Jv, segs: Seq<Seq<char>>) -> Option<Jv>
    decreases segs.len(),
{
    if segs.len() == 0 {
        Option::Some(v)
    } else {
        match v {
            Jv::Obj(m) => match obj_get(m, segs.first()) {
                Option::Some(child) => walk_path(child, segs.drop_first()),
                Option::None => Option::None,
            },
            _ => Option::None,
        }
    }
}

/// The elements of a reference array, which must all be strings; any
/// other element makes the whole array a shape error.
pub open spec fn strs_of(vs: Seq<Jv>) -> Result<Seq<Seq<char>>, ()>
    decreases vs.len(),
{
    if vs.len() == 0 {
        Ok(Seq::empty())
    } else {
        match strs_of(vs.drop_last()) {
            Err(e) => Err(e),
            Ok(rest) => match vs.last() {
                Jv::Str(s) => Ok(rest.push(s)),
                _ => Err(()),
            },
        }
    }
}

/// The reference strings a present value yields for a constraint type,
/// or a shape error.
pub open spec fn refs_of(ty: ForeignKeyType, v: Jv) -> Result<Seq<Seq<char>>, ()> {
    match (ty, v) {
        (ForeignKeyType::One, Jv::Str(s)) => Ok(seq![s]),
        (ForeignKeyType::OneOptional, Jv::Null) => Ok(Seq::empty()),
        (ForeignKeyType::OneOptional, Jv::Str(s)) => Ok(seq![s]),
        (ForeignKeyType::OneOrMany, Jv::Str(s)) => Ok(seq![s]),
        (ForeignKeyType::OneOrMany, Jv::Arr(vs)) => strs_of(vs),
        (ForeignKeyType::NoneOrMany, Jv::Null) => Ok(Seq::empty()),
        (ForeignKeyType::NoneOrMany, Jv::Str(s)) => Ok(seq![s]),
        (ForeignKeyType::NoneOrMany, Jv::Arr(vs)) => strs_of(vs),
        _ => Err(()),
    }
}

/// An array with a malformed prefix is malformed as a whole.
proof fn lemma_strs_of_err(vs: Seq<Jv>, i: int)
    requires
        0 <= i <= vs.len(),
        strs_of(vs.take(i)) is Err,
    ensures
        strs_of(vs) is Err,
    decreases vs.len() - i,
{
    if i < vs.len() {
        assert(vs.take(i + 1).drop_last() =~= vs.take(i));
        lemma_strs_of_err(vs, i + 1);
    } else {
        assert(vs.take(i) =~= vs);
    }
}

/// A reference split on `/`: a full triple, or the shorter forms that
/// inherit namespace and kind from the referring object.
pub open spec fn parse_ref(r: Seq<char>, ns: Seq<char>, kind: Seq<char>) -> Result<
    (Seq<char>, Seq<char>, Seq<char>),
    (),
> {
    let comps = spec_split(r, '/');
    if comps.len() == 3 {
        Ok((comps[0], comps[1], comps[2]))
    } else if comps.len() == 2 {
        Ok((ns, comps[0], comps[1]))
    } else if comps.len() == 1 {
        Ok((ns, kind, comps[0]))
    } else {
        Err(())
    }
}

/// Identity of the object a constraint error speaks about.
pub struct FkCtxV {
    pub api_version: Seq<char>,
    pub kind: Seq<char>,
    pub name: Seq<char>,
    pub ns: Seq<char>,
}

pub open spec fn missing_fk_err(cx: FkCtxV, c: ForeignKeyConstraintV) -> ErrV {
    ErrV::ObjectValidationMissingForeignKeyEntry {
        api_version: cx.api_version,
        kind: cx.kind,
        name: cx.name,
        foreign_key_path: c.key_path,
        foreign_key_type: c.ty,
    }
}

/// One reference resolved to a target `string_id`, or an error.
pub open spec fn target_of(r: Seq<char>, cx: FkCtxV, c: ForeignKeyConstraintV) -> Result<
    Seq<char>,
    ErrV,
> {
    match parse_ref(r, cx.ns, cx.kind) {
        Err(_) => Err(
            ErrV::ObjectValidationWrongForeignKeyEntryFormat {
                api_version: cx.api_version,
                kind: cx.kind,
                name: cx.name,
                foreign_key_path: c.key_path,
                foreign_key_type: c.ty,
                value: r,
            },
        ),
        Ok((tns, tkind, tname)) => match c.foreign_key_kind {
            Option::Some(fk) => if fk != tkind {
                Err(
                    ErrV::ObjectValidationWrongForeignKeyEntryKind {
                        api_version: cx.api_version,
                        kind: cx.kind,
                        name: cx.name,
                        foreign_key_path: c.key_path,
                        foreign_key_type: c.ty,
                        value: r,
                    },
                )
            } else {
                Ok(spec_string_id(tns, tkind, tname))
            },
            Option::None => Ok(spec_string_id(tns, tkind, tname)),
        },
    }
}

/// Each reference in order; the first bad one wins.
pub open spec fn targets_of(rs: Seq<Seq<char>>, cx: FkCtxV, c: ForeignKeyConstraintV) -> Result<
    Seq<Seq<char>>,
    ErrV,
>
    decreases rs.len(),
{
    if rs.len() == 0 {
        Ok(Seq::empty())
    } else {
        match target_of(rs.first(), cx, c) {
            Err(e) => Err(e),
            Ok(t) => match targets_of(rs.drop_first(), cx, c) {
                Err(e) => Err(e),
                Ok(rest) => Ok(seq![t] + rest),
            },
        }
    }
}

/// One constraint checked against the spec: absent paths are allowed
/// only for the optional cardinalities; a present value must have an
/// accepted shape; every reference must parse and match the declared
/// kind.
pub open spec fn fk_one(sp: Jv, cx: FkCtxV, c: ForeignKeyConstraintV) -> Result<
    Option<(Seq<Seq<char>>, u128)>,
    ErrV,
> {
    match walk_path(sp, spec_split(c.key_path, '.')) {
        Option::None => if c.ty == ForeignKeyType::OneOptional || c.ty
            == ForeignKeyType::NoneOrMany {
            Ok(Option::None)
        } else {
            Err(missing_fk_err(cx, c))
        },
        Option::Some(v) => match refs_of(c.ty, v) {
            Err(_) => Err(missing_fk_err(cx, c)),
            Ok(rs) => match targets_of(rs, cx, c) {
                Err(e) => Err(e),
                Ok(ts) => Ok(Option::Some((ts, c.id))),
            },
        },
    }
}

/// All constraints of the object's type, in table order.
pub open spec fn fks_spec(cs: Seq<ForeignKeyConstraintV>, sp: Jv, cx: FkCtxV) -> Result<
    Seq<(Seq<Seq<char>>, u128)>,
    ErrV,
>
    decreases cs.len(),
{
    if cs.len() == 0 {
        Ok(Seq::empty())
    } else {
        match fk_one(sp, cx, cs.first()) {
            Err(e) => Err(e),
            Ok(one) => match fks_spec(cs.drop_first(), sp, cx) {
                Err(e) => Err(e),
                Ok(rest) => match one {
                    Option::Some(p) => Ok(seq![p] + rest),
                    Option::None => Ok(rest),
                },
            },
        }
    }
}

/// Walks the spec along dotted path segments, as `walk_path` fixes it.
#[verifier::loop_isolation(false)]
fn walk_path_exec<'a>(sp: &'a JsonVal, segs: &Vec<String>) -> (r: Option<&'a JsonVal>)
    ensures
        match r {
            Option::Some(v) => walk_path(sp@, views(segs@)) == Option::Some(v@),
            Option::None => walk_path(sp@, views(segs@)) is None,
        },
{
    let ghost gsegs = views(segs@);
    let mut cur = sp;
    let mut i: usize = 0;
    proof {
        assert(gsegs.skip(0) =~= gsegs);
    }
    while i < segs.len()
        invariant
            0 <= i <= segs.len(),
            gsegs.len() == segs@.len(),
            walk_path(sp@, gsegs) == walk_path(cur@, gsegs.skip(i as int)),
        decreases segs.len() - i,
    {
        proof {
            assert(gsegs.skip(i as int).first() == gsegs[i as int]);
            assert(gsegs[i as int] == segs@[i as int]@);
            assert(gsegs.skip(i as int).drop_first() =~= gsegs.skip(i + 1));
        }
        match cur {
            JsonVal::Obj(fields) => {
                match get_field(fields, &segs[i]) {
                    Option::Some(child) => {
                        cur = child;
                    },
                    Option::None => {
                        return Option::None;
                    },
                }
            },
            _ => {
                return Option::None;
            },
        }
        i = i + 1;
    }
    proof {
        assert(gsegs.skip(segs@.len() as int) =~= Seq::<Seq<char>>::empty());
    }
    Option::Some(cur)
}

/// Reads the reference strings of a present value, as `refs_of` fixes
/// it.
#[verifier::loop_isolation(false)]
fn refs_of_exec(ty: ForeignKeyType, v: &JsonVal) -> (r: Result<Vec<String>, ()>)
    ensures
        match r {
            Ok(rs) => refs_of(ty, v@) == Ok::<_, ()>(views(rs@)),
            Err(()) => refs_of(ty, v@) is Err,
        },
{
    match v {
        JsonVal::Null => {
            if ty == ForeignKeyType::OneOptional || ty == ForeignKeyType::NoneOrMany {
                let out: Vec<String> = Vec::new();
                proof {
                    assert(views(out@) =~= Seq::<Seq<char>>::empty());
                }
                Ok(out)
            } else {
                Err(())
            }
        },
        JsonVal::Str(s) => {
            let mut out: Vec<String> = Vec::new();
            out.push(s.clone());
            proof {
                assert(views(out@) =~= seq![s@]);
            }
            Ok(out)
        },
        JsonVal::Arr(vs) => {
            if ty == ForeignKeyType::OneOrMany || ty == ForeignKeyType::NoneOrMany {
                let ghost ga = JsonVal::deep_arr(vs@);
                proof {
                    broadcast use crate::json::lemma_deep_arr;

                }
                let mut out: Vec<String> = Vec::new();
                let mut i: usize = 0;
                proof {
                    assert(ga.take(0) =~= Seq::<Jv>::empty());
                    assert(strs_of(ga.take(0)) == Ok::<_, ()>(views(out@))) by {
                        assert(views(out@) =~= Seq::<Seq<char>>::empty());
                    }
                }
                while i < vs.len()
                    invariant
                        0 <= i <= vs.len(),
                        strs_of(ga.take(i as int)) == Ok::<_, ()>(views(out@)),
                    decreases vs.len() - i,
                {
                    proof {
                        assert(ga.take(i + 1).drop_last() =~= ga.take(i as int));
                        assert(ga.take(i + 1).last() == ga[i as int]);
                    }
                    let ghost out0 = views(out@);
                    match &vs[i] {
                        JsonVal::Str(s) => {
                            out.push(s.clone());
                            proof {
                                assert(views(out@) =~= out0.push(ga[i as int]->Str_0));
                            }
                        },
                        _ => {
                            proof {
                                assert(strs_of(ga.take(i + 1)) is Err);
                                lemma_strs_of_err(ga, i + 1);
                            }
                            return Err(());
                        },
                    }
                    proof {
                        assert(strs_of(ga.take(i + 1)) == Ok::<_, ()>(views(out@)));
                    }
                    i = i + 1;
                }
                proof {
                    assert(ga.take(vs@.len() as int) =~= ga);
                }
                Ok(out)
            } else {
                Err(())
            }
        },
        _ => Err(()),
    }
}

/// Resolves one reference string to a target identifier, as
/// `target_of` fixes it.
fn target_of_exec(
    r: &String,
    api_version: &String,
    kind: &String,
    name: &String,
    ns: &String,
    c: &ForeignKeyConstraint,
) -> (res: Result<String, DawnStoreError>)
    ensures
        ({
            let cx = FkCtxV { api_version: api_version@, kind: kind@, name: name@, ns: ns@ };
            match res {
                Ok(t) => target_of(r@, cx, c@) == Ok::<_, ErrV>(t@),
                Err(e) => target_of(r@, cx, c@) == Err::<Seq<char>, _>(e@),
            }
        }),
{
    let parts = crate::text::split_on(r, '/');
    let (tns, tkind, tname) = if parts.len() == 3 {
        (parts[0].clone(), parts[1].clone(), parts[2].clone())
    } else if parts.len() == 2 {
        (ns.clone(), parts[0].clone(), parts[1].clone())
    } else if parts.len() == 1 {
        (ns.clone(), kind.clone(), parts[0].clone())
    } else {
        return Err(
            DawnStoreError::ObjectValidationWrongForeignKeyEntryFormat {
                api_version: api_version.clone(),
                kind: kind.clone(),
                name: name.clone(),
                foreign_key_path: c.key_path.clone(),
                foreign_key_type: c.ty,
                value: r.clone(),
            },
        );
    };
    if let Option::Some(fk) = &c.foreign_key_kind {
        if !(*fk == tkind) {
            return Err(
                DawnStoreError::ObjectValidationWrongForeignKeyEntryKind {
                    api_version: api_version.clone(),
                    kind: kind.clone(),
                    name: name.clone(),
                    foreign_key_path: c.key_path.clone(),
                    foreign_key_type: c.ty,
                    value: r.clone(),
                },
            );
        }
    }
    Ok(crate::text::make_string_id(&tns, &tkind, &tname))
}

/// A clean prefix of references and then one more.
proof fn lemma_targets_snoc(rs: Seq<Seq<char>>, cx: FkCtxV, c: ForeignKeyConstraintV, i: int)
    requires
        0 <= i < rs.len(),
        targets_of(rs.take(i), cx, c) is Ok,
    ensures
        targets_of(rs.take(i + 1), cx, c) == match target_of(rs[i], cx, c) {
            Ok(t) => Ok::<_, ErrV>(targets_of(rs.take(i), cx, c)->Ok_0.push(t)),
            Err(e) => Err(e),
        },
    decreases i,
{
    if i == 0 {
        assert(rs.take(1).first() == rs[0]);
        assert(rs.take(1).drop_first() =~= Seq::<Seq<char>>::empty());
        assert(rs.take(0) =~= Seq::<Seq<char>>::empty());
        match target_of(rs[0], cx, c) {
            Ok(t) => {
                assert(seq![t] + Seq::<Seq<char>>::empty() =~= Seq::<Seq<char>>::empty().push(t));
            },
            Err(_) => {},
        }
    } else {
        assert(rs.take(i + 1).first() == rs.first());
        assert(rs.take(i).first() == rs.first());
        assert(target_of(rs.first(), cx, c) is Ok);
        assert(rs.take(i + 1).drop_first() =~= rs.drop_first().take(i));
        assert(rs.take(i).drop_first() =~= rs.drop_first().take(i - 1));
        lemma_targets_snoc(rs.drop_first(), cx, c, i - 1);
        assert(rs.drop_first()[i - 1] == rs[i]);
        match target_of(rs[i], cx, c) {
            Ok(t) => {
                assert(targets_of(rs.take(i + 1), cx, c)->Ok_0 =~= targets_of(
                    rs.take(i),
                    cx,
                    c,
                )->Ok_0.push(t));
            },
            Err(_) => {},
        }
    }
}

/// The first bad reference decides the whole list.
proof fn lemma_targets_err(rs: Seq<Seq<char>>, cx: FkCtxV, c: ForeignKeyConstraintV, i: int)
    requires
        0 <= i < rs.len(),
        targets_of(rs.take(i), cx, c) is Ok,
        target_of(rs[i], cx, c) is Err,
    ensures
        targets_of(rs, cx, c) == Err::<Seq<Seq<char>>, _>(target_of(rs[i], cx, c)->Err_0),
    decreases i,
{
    if i == 0 {
        assert(rs.first() == rs[0]);
    } else {
        assert(rs.take(i).first() == rs.first());
        assert(target_of(rs.first(), cx, c) is Ok);
        assert(rs.take(i).drop_first() =~= rs.drop_first().take(i - 1));
        lemma_targets_err(rs.drop_first(), cx, c, i - 1);
        assert(rs.drop_first()[i - 1] == rs[i]);
    }
}

/// Resolves every reference of one constraint, as `targets_of` fixes
/// it.
#[verifier::loop_isolation(false)]
fn targets_of_exec(
    rs: &Vec<String>,
    api_version: &String,
    kind: &String,
    name: &String,
    ns: &String,
    c: &ForeignKeyConstraint,
) -> (res: Result<Vec<String>, DawnStoreError>)
    ensures
        ({
            let cx = FkCtxV { api_version: api_version@, kind: kind@, name: name@, ns: ns@ };
            match res {
                Ok(ts) => targets_of(views(rs@), cx, c@) == Ok::<_, ErrV>(views(ts@)),
                Err(e) => targets_of(views(rs@), cx, c@) == Err::<Seq<Seq<char>>, _>(e@),
            }
        }),
{
    let ghost cx = FkCtxV { api_version: api_version@, kind: kind@, name: name@, ns: ns@ };
    let ghost grs = views(rs@);
    let mut out: Vec<String> = Vec::new();
    let mut i: usize = 0;
    proof {
        assert(grs.take(0) =~= Seq::<Seq<char>>::empty());
        assert(views(out@) =~= Seq::<Seq<char>>::empty());
    }
    while i < rs.len()
        invariant
            0 <= i <= rs.len(),
            grs.len() == rs@.len(),
            targets_of(grs.take(i as int), cx, c@) == Ok::<_, ErrV>(views(out@)),
        decreases rs.len() - i,
    {
        proof {
            lemma_targets_snoc(grs, cx, c@, i as int);
            assert(grs[i as int] == rs@[i as int]@);
        }
        match target_of_exec(&rs[i], api_version, kind, name, ns, c) {
            Ok(t) => {
                let ghost out0 = views(out@);
                let ghost gt = t@;
                out.push(t);
                proof {
                    assert(views(out@) =~= out0.push(gt));
                }
            },
            Err(e) => {
                proof {
                    lemma_targets_err(grs, cx, c@, i as int);
                }
                return Err(e);
            },
        }
        i = i + 1;
    }
    proof {
        assert(grs.take(rs@.len() as int) =~= grs);
    }
    Ok(out)
}

/// Checks one constraint against the spec, as `fk_one` fixes it.
fn fk_one_exec(
    sp: &JsonVal,
    api_version: &String,
    kind: &String,
    name: &String,
    ns: &String,
    c: &ForeignKeyConstraint,
) -> (res: Result<Option<(Vec<String>, u128)>, DawnStoreError>)
    ensures
        ({
            let cx = FkCtxV { api_version: api_version@, kind: kind@, name: name@, ns: ns@ };
            match res {
                Ok(one) => fk_one(sp@, cx, c@) == Ok::<_, ErrV>(
                    match one {
                        Option::Some(p) => Option::Some((views(p.0@), p.1)),
                        Option::None => Option::<(Seq<Seq<char>>, u128)>::None,
                    },
                ),
                Err(e) => fk_one(sp@, cx, c@) == Err::<Option<(Seq<Seq<char>>, u128)>, _>(e@),
            }
        }),
{
    let segs = crate::text::split_on(&c.key_path, '.');
    let pos = walk_path_exec(sp, &segs);
    match pos {
        Option::None => {
            if (c.ty == ForeignKeyType::OneOptional) || (c.ty == ForeignKeyType::NoneOrMany) {
                Ok(Option::None)
            } else {
                Err(
                    DawnStoreError::ObjectValidationMissingForeignKeyEntry {
                        api_version: api_version.clone(),
                        kind: kind.clone(),
                        name: name.clone(),
                        foreign_key_path: c.key_path.clone(),
                        foreign_key_type: c.ty,
                    },
                )
            }
        },
        Option::Some(v) => {
            match refs_of_exec(c.ty, v) {
                Err(()) => Err(
                    DawnStoreError::ObjectValidationMissingForeignKeyEntry {
                        api_version: api_version.clone(),
                        kind: kind.clone(),
                        name: name.clone(),
                        foreign_key_path: c.key_path.clone(),
                        foreign_key_type: c.ty,
                    },
                ),
                Ok(rs) => {
                    match targets_of_exec(&rs, api_version, kind, name, ns, c) {
                        Ok(ts) => Ok(Option::Some((ts, c.id))),
                        Err(e) => Err(e),
                    }
                },
            }
        },
    }
}

/// The views of the per-constraint reference lists.
pub open spec fn fklists_v(s: Seq<(Vec<String>, u128)>) -> Seq<(Seq<Seq<char>>, u128)> {
    s.map_values(|p: (Vec<String>, u128)| (views(p.0@), p.1))
}

/// A clean prefix of constraints and then one more.
proof fn lemma_fks_snoc(cs: Seq<ForeignKeyConstraintV>, sp: Jv, cx: FkCtxV, i: int)
    requires
        0 <= i < cs.len(),
        fks_spec(cs.take(i), sp, cx) is Ok,
    ensures
        fks_spec(cs.take(i + 1), sp, cx) == match fk_one(sp, cx, cs[i]) {
            Ok(one) => match one {
                Option::Some(p) => Ok::<_, ErrV>(fks_spec(cs.take(i), sp, cx)->Ok_0.push(p)),
                Option::None => Ok(fks_spec(cs.take(i), sp, cx)->Ok_0),
            },
            Err(e) => Err(e),
        },
    decreases i,
{
    if i == 0 {
        assert(cs.take(1).first() == cs[0]);
        assert(cs.take(1).drop_first() =~= Seq::<ForeignKeyConstraintV>::empty());
        assert(cs.take(0) =~= Seq::<ForeignKeyConstraintV>::empty());
        match fk_one(sp, cx, cs[0]) {
            Ok(one) => match one {
                Option::Some(p) => {
                    assert(seq![p] + Seq::<(Seq<Seq<char>>, u128)>::empty() =~= Seq::<
                        (Seq<Seq<char>>, u128),
                    >::empty().push(p));
                },
                Option::None => {},
            },
            Err(_) => {},
        }
    } else {
        assert(cs.take(i + 1).first() == cs.first());
        assert(cs.take(i).first() == cs.first());
        assert(fk_one(sp, cx, cs.first()) is Ok);
        assert(cs.take(i + 1).drop_first() =~= cs.drop_first().take(i));
        assert(cs.take(i).drop_first() =~= cs.drop_first().take(i - 1));
        lemma_fks_snoc(cs.drop_first(), sp, cx, i - 1);
        assert(cs.drop_first()[i - 1] == cs[i]);
        match fk_one(sp, cx, cs[i]) {
            Ok(one) => match one {
                Option::Some(p) => {
                    assert(fks_spec(cs.take(i + 1), sp, cx)->Ok_0 =~= fks_spec(
                        cs.take(i),
                        sp,
                        cx,
                    )->Ok_0.push(p));
                },
                Option::None => {
                    assert(fks_spec(cs.take(i + 1), sp, cx)->Ok_0 =~= fks_spec(
                        cs.take(i),
                        sp,
                        cx,
                    )->Ok_0);
                },
            },
            Err(_) => {},
        }
    }
}

/// The first failing constraint decides the whole check.
proof fn lemma_fks_err(cs: Seq<ForeignKeyConstraintV>, sp: Jv, cx: FkCtxV, i: int)
    requires
        0 <= i < cs.len(),
        fks_spec(cs.take(i), sp, cx) is Ok,
        fk_one(sp, cx, cs[i]) is Err,
    ensures
        fks_spec(cs, sp, cx) == Err::<Seq<(Seq<Seq<char>>, u128)>, _>(fk_one(sp, cx, cs[i])->Err_0),
    decreases i,
{
    if i == 0 {
        assert(cs.first() == cs[0]);
    } else {
        assert(cs.take(i).first() == cs.first());
        assert(fk_one(sp, cx, cs.first()) is Ok);
        assert(cs.take(i).drop_first() =~= cs.drop_first().take(i - 1));
        lemma_fks_err(cs.drop_first(), sp, cx, i - 1);
        assert(cs.drop_first()[i - 1] == cs[i]);
    }
}

/// Checks every declared constraint of the object's type against its
/// spec and resolves the references it carries, as `fks_spec` fixes
/// it: for each constraint, in table order, the list of target
/// identifiers and the constraint's id.
#[verifier::loop_isolation(false)]
pub fn check_foreign_keys(
    constraints: &Vec<ForeignKeyConstraint>,
    sp: &JsonVal,
    api_version: &String,
    kind: &String,
    name: &String,
    ns: &String,
) -> (res: Result<Vec<(Vec<String>, u128)>, DawnStoreError>)
    ensures
        ({
            let cx = FkCtxV { api_version: api_version@, kind: kind@, name: name@, ns: ns@ };
            match res {
                Ok(fks) => fks_spec(crate::queries::fkcs_v(constraints@), sp@, cx) == Ok::<
                    _,
                    ErrV,
                >(fklists_v(fks@)),
                Err(e) => fks_spec(crate::queries::fkcs_v(constraints@), sp@, cx) == Err::<
                    Seq<(Seq<Seq<char>>, u128)>,
                    _,
                >(e@),
            }
        }),
{
    let ghost cx = FkCtxV { api_version: api_version@, kind: kind@, name: name@, ns: ns@ };
    let ghost gcs = crate::queries::fkcs_v(constraints@);
    let mut out: Vec<(Vec<String>, u128)> = Vec::new();
    let mut i: usize = 0;
    proof {
        assert(gcs.take(0) =~= Seq::<ForeignKeyConstraintV>::empty());
        assert(fklists_v(out@) =~= Seq::<(Seq<Seq<char>>, u128)>::empty());
    }
    while i < constraints.len()
        invariant
            0 <= i <= constraints.len(),
            gcs.len() == constraints@.len(),
            fks_spec(gcs.take(i as int), sp@, cx) == Ok::<_, ErrV>(fklists_v(out@)),
        decreases constraints.len() - i,
    {
        proof {
            lemma_fks_snoc(gcs, sp@, cx, i as int);
            assert(gcs[i as int] == constraints@[i as int]@);
        }
        match fk_one_exec(sp, api_version, kind, name, ns, &constraints[i]) {
            Ok(one) => match one {
                Option::Some(p) => {
                    let ghost out0 = fklists_v(out@);
                    let ghost gp = (views(p.0@), p.1);
                    out.push(p);
                    proof {
                        assert(fklists_v(out@) =~= out0.push(gp));
                    }
                },
                Option::None => {},
            },
            Err(e) => {
                proof {
                    lemma_fks_err(gcs, sp@, cx, i as int);
                }
                return Err(e);
            },
        }
        i = i + 1;
    }
    proof {
        assert(gcs.take(constraints@.len() as int) =~= gcs);
    }
    Ok(out)
}

} // verus!
