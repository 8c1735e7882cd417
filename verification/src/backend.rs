//! The store: four tables, two caches, and the operations of the
//! public surface. An apply runs as a transaction: it works on copies
//! of the object and relation tables and installs them only when every
//! step has succeeded.
use vstd::prelude::*;
use vstd::string::StringExecFns;

use crate::data_models::{
    ForeignKeyConstraint, ForeignKeyConstraintV, Object, ObjectSchema, ObjectSchemaV, DbObjectV,
    Relation,
};
use crate::error::{DawnStoreError, ErrV};
use crate::models::ObjectId;
use crate::queries::{
    filter_fkcs, fkcs_v, has_schema, objects_v, schema_of, schemas_v, wf_objects, wf_relations,
    wf_schemas,
};

verus! {

/// The persistent state: the four tables, and the two process-wide
/// caches that make repeated applies cheap.
pub struct Store {
    pub schemas: Vec<ObjectSchema>,
    pub constraints: Vec<ForeignKeyConstraint>,
    pub objects: Vec<Object>,
    pub relations: Vec<Relation>,
    pub schema_cache: Vec<(ObjectId, String)>,
    pub fk_cache: Vec<(ObjectId, Vec<ForeignKeyConstraint>)>,
}

/// Mathematical view of the persistent state; the caches are not part
/// of it, they only mirror it.
pub struct StoreV {
    pub schemas: Seq<ObjectSchemaV>,
    pub constraints: Seq<ForeignKeyConstraintV>,
    pub objects: Seq<DbObjectV>,
    pub relations: Seq<Relation>,
}

impl View for Store {
    type V = StoreV;

    open spec fn view(&self) -> StoreV {
        StoreV {
            schemas: schemas_v(self.schemas@),
            constraints: fkcs_v(self.constraints@),
            objects: objects_v(self.objects@),
            relations: self.relations@,
        }
    }
}

/// Every cached schema text is the text stored for its key, and only
/// registered keys are cached.
pub open spec fn schema_cache_ok(cache: Seq<(ObjectId, String)>, schemas: Seq<ObjectSchemaV>) -> bool {
    forall|i: int|
        0 <= i < cache.len() ==> {
            &&& has_schema(schemas, (#[trigger] cache[i]).0.api_version@, cache[i].0.kind@)
            &&& cache[i].1@ == schema_of(
                schemas,
                cache[i].0.api_version@,
                cache[i].0.kind@,
            ).json_schema
        }
}

/// Every cached constraint list is the filtered table for its key, and
/// only registered keys are cached.
pub open spec fn fk_cache_ok(
    cache: Seq<(ObjectId, Vec<ForeignKeyConstraint>)>,
    schemas: Seq<ObjectSchemaV>,
    constraints: Seq<ForeignKeyConstraintV>,
) -> bool {
    forall|i: int|
        0 <= i < cache.len() ==> {
            &&& has_schema(schemas, (#[trigger] cache[i]).0.api_version@, cache[i].0.kind@)
            &&& fkcs_v(cache[i].1@) == filter_fkcs(
                constraints,
                cache[i].0.api_version@,
                cache[i].0.kind@,
            )
        }
}

/// Prior cache entries are never replaced or evicted: the old cache is
/// a prefix of the new one.
pub open spec fn cache_extends<T>(new: Seq<T>, old: Seq<T>) -> bool {
    old.len() <= new.len() && forall|i: int| 0 <= i < old.len() ==> new[i] == old[i]
}

/// Whether the schema cache holds an entry for the key.
pub open spec fn schema_key_cached(
    cache: Seq<(ObjectId, String)>,
    av: Seq<char>,
    kind: Seq<char>,
) -> bool {
    exists|i: int|
        0 <= i < cache.len() && (#[trigger] cache[i]).0.api_version@ == av && cache[i].0.kind@
            == kind
}

/// Whether the constraint cache holds an entry for the key.
pub open spec fn fk_key_cached(
    cache: Seq<(ObjectId, Vec<ForeignKeyConstraint>)>,
    av: Seq<char>,
    kind: Seq<char>,
) -> bool {
    exists|i: int|
        0 <= i < cache.len() && (#[trigger] cache[i]).0.api_version@ == av && cache[i].0.kind@
            == kind
}

/// The whole store is well formed: unique keys in every table, caches
/// in step with the tables.
pub open spec fn wf_store(s: Store) -> bool {
    &&& wf_schemas(s@.schemas)
    &&& wf_objects(s@.objects)
    &&& wf_relations(s@.relations)
    &&& schema_cache_ok(s.schema_cache@, s@.schemas)
    &&& fk_cache_ok(s.fk_cache@, s@.schemas, s@.constraints)
}

/// Adding a row for another key does not move a lookup.
pub proof fn lemma_schema_of_push(s: Seq<ObjectSchemaV>, r: ObjectSchemaV, av: Seq<char>, k: Seq<char>)
    requires
        wf_schemas(s.push(r)),
        has_schema(s, av, k),
        !(r.api_version == av && r.kind == k),
    ensures
        has_schema(s.push(r), av, k),
        schema_of(s.push(r), av, k) == schema_of(s, av, k),
{
    let s2 = s.push(r);
    let w0 = choose|i: int| 0 <= i < s.len() && (#[trigger] s[i]).api_version == av && s[i].kind == k;
    assert(s2[w0] == s[w0]);
    assert(has_schema(s2, av, k));
    let w = choose|i: int| 0 <= i < s2.len() && (#[trigger] s2[i]).api_version == av && s2[i].kind == k;
    assert(s2[w].api_version == av && s2[w].kind == k);
    assert(w < s.len());
    let w1 = choose|i: int| 0 <= i < s.len() && (#[trigger] s[i]).api_version == av && s[i].kind == k;
    assert(s[w1].api_version == av && s[w1].kind == k);
    assert(s2[w1] == s[w1]);
    assert(w == w1);
}

/// Appending constraint rows of one key leaves every other key's
/// filtered list unchanged.
pub proof fn lemma_filter_fkcs_append_other(
    cs: Seq<ForeignKeyConstraintV>,
    added: Seq<ForeignKeyConstraintV>,
    av: Seq<char>,
    k: Seq<char>,
)
    requires
        forall|i: int|
            0 <= i < added.len() ==> !((#[trigger] added[i]).api_version == av && added[i].kind
                == k),
    ensures
        filter_fkcs(cs + added, av, k) == filter_fkcs(cs, av, k),
    decreases added.len(),
{
    if added.len() == 0 {
        assert(cs + added =~= cs);
    } else {
        let shorter = added.drop_last();
        assert(forall|i: int|
            0 <= i < shorter.len() ==> !((#[trigger] shorter[i]).api_version == av
                && shorter[i].kind == k));
        lemma_filter_fkcs_append_other(cs, shorter, av, k);
        let whole = cs + added;
        assert(whole.len() > 0);
        assert(whole.last() == added.last());
        assert(whole.drop_last() =~= cs + shorter);
        assert(!(whole.last().api_version == av && whole.last().kind == k));
        assert(filter_fkcs(whole, av, k) =~= filter_fkcs(cs + shorter, av, k));
    }
}

impl Store {
    /// An empty store.
    pub fn new() -> (s: Store)
        ensures
            wf_store(s),
            s@.schemas == Seq::<ObjectSchemaV>::empty(),
            s@.constraints == Seq::<ForeignKeyConstraintV>::empty(),
            s@.objects == Seq::<DbObjectV>::empty(),
            s@.relations == Seq::<Relation>::empty(),
    {
        let s = Store {
            schemas: Vec::new(),
            constraints: Vec::new(),
            objects: Vec::new(),
            relations: Vec::new(),
            schema_cache: Vec::new(),
            fk_cache: Vec::new(),
        };
        proof {
            assert(schemas_v(s.schemas@) =~= Seq::<ObjectSchemaV>::empty());
            assert(fkcs_v(s.constraints@) =~= Seq::<ForeignKeyConstraintV>::empty());
            assert(objects_v(s.objects@) =~= Seq::<DbObjectV>::empty());
        }
        s
    }

    /// Registers a schema and its constraints under a fixed identifier
    /// and fixed constraint identifiers. When the `(api_version, kind)`
    /// pair is already present nothing changes: the first registration
    /// wins.
    #[verifier::loop_isolation(false)]
    pub fn seed_object_schema_at(
        &mut self,
        api_version: String,
        kind: String,
        aliases: Vec<String>,
        json_schema: String,
        foreign_keys: Vec<crate::models::ForeignKey>,
        schema_id: u128,
        fk_ids: Vec<u128>,
    ) -> (r: Result<(), DawnStoreError>)
        requires
            wf_store(*old(self)),
            fk_ids@.len() == foreign_keys@.len(),
        ensures
            wf_store(*final(self)),
            final(self)@.objects == old(self)@.objects,
            final(self)@.relations == old(self)@.relations,
            r is Ok,
            has_schema(final(self)@.schemas, api_version@, kind@),
            has_schema(old(self)@.schemas, api_version@, kind@) ==> final(self)@ == old(self)@,
            !has_schema(old(self)@.schemas, api_version@, kind@) ==> {
                &&& final(self)@.schemas == old(self)@.schemas.push(
                    ObjectSchemaV {
                        id: schema_id,
                        api_version: api_version@,
                        kind: kind@,
                        aliases: crate::text::views(aliases@),
                        json_schema: json_schema@,
                    },
                )
                &&& final(self)@.constraints == old(self)@.constraints + seeded_fkcs(
                    foreign_keys@.map_values(|f: crate::models::ForeignKey| f@),
                    fk_ids@,
                    api_version@,
                    kind@,
                )
            },
    {
        let existing = crate::queries::get_object_schema(&self.schemas, &api_version, &kind);
        if existing.is_some() {
            return Ok(());
        }
        let row = ObjectSchema {
            id: schema_id,
            api_version: api_version.clone(),
            kind: kind.clone(),
            aliases,
            json_schema,
        };
        let ghost rowv = row@;
        let ghost schemas0 = self@.schemas;
        let ghost constraints0 = self@.constraints;
        match crate::queries::insert_object_schema(&mut self.schemas, row) {
            Ok(()) => {},
            Err(_) => {
                proof {
                    assert(false);
                }
                return Ok(());
            },
        }
        // build the constraint rows
        let mut rows: Vec<ForeignKeyConstraint> = Vec::new();
        let mut i: usize = 0;
        let ghost gfk = foreign_keys@.map_values(|f: crate::models::ForeignKey| f@);
        proof {
            assert(fkcs_v(rows@) =~= seeded_fkcs(gfk.take(0), fk_ids@.take(0), api_version@, kind@))
                by {
                assert(gfk.take(0) =~= Seq::<crate::models::ForeignKeyV>::empty());
                assert(fkcs_v(rows@) =~= Seq::<ForeignKeyConstraintV>::empty());
            }
        }
        while i < foreign_keys.len()
            invariant
                0 <= i <= foreign_keys.len(),
                gfk.len() == foreign_keys@.len(),
                fk_ids@.len() == foreign_keys@.len(),
                fkcs_v(rows@) == seeded_fkcs(
                    gfk.take(i as int),
                    fk_ids@.take(i as int),
                    api_version@,
                    kind@,
                ),
            decreases foreign_keys.len() - i,
        {
            let fk = &foreign_keys[i];
            let row = ForeignKeyConstraint {
                id: fk_ids[i],
                api_version: api_version.clone(),
                kind: kind.clone(),
                key_path: fk.path.clone(),
                parent_key_path: crate::models::clone_opt_string(&fk.parent_path),
                ty: fk.ty,
                behaviour: fk.behaviour,
                foreign_key_kind: crate::models::clone_opt_string(&fk.foreign_kind),
            };
            let ghost rows0 = fkcs_v(rows@);
            let ghost grow = row@;
            rows.push(row);
            proof {
                assert(fkcs_v(rows@) =~= rows0.push(grow));
                assert(gfk.take(i + 1).drop_last() =~= gfk.take(i as int));
                assert(fk_ids@.take(i + 1).drop_last() =~= fk_ids@.take(i as int));
                assert(gfk.take(i + 1).last() == gfk[i as int]);
                assert(gfk[i as int] == foreign_keys@[i as int]@);
                assert(fkcs_v(rows@) =~= seeded_fkcs(
                    gfk.take(i + 1),
                    fk_ids@.take(i + 1),
                    api_version@,
                    kind@,
                ));
            }
            i = i + 1;
        }
        proof {
            assert(gfk.take(gfk.len() as int) =~= gfk);
            assert(fk_ids@.take(fk_ids@.len() as int) =~= fk_ids@);
        }
        crate::queries::insert_multiple_foreign_key_constraints(&mut self.constraints, &rows);
        proof {
            // schema uniqueness survives the push
            assert forall|a: int, b: int| 0 <= a < b < self@.schemas.len() implies !((
            #[trigger] self@.schemas[a]).api_version == (#[trigger] self@.schemas[b]).api_version
                && self@.schemas[a].kind == self@.schemas[b].kind) by {
                if b < schemas0.len() {
                    assert(schemas0[a] == self@.schemas[a]);
                    assert(schemas0[b] == self@.schemas[b]);
                } else {
                    assert(self@.schemas[b] == rowv);
                    assert(!has_schema(schemas0, api_version@, kind@));
                    assert(self@.schemas[a] == schemas0[a]);
                }
            }
            // caches still mirror the tables
            assert forall|ci: int| 0 <= ci < self.schema_cache@.len() implies {
                &&& has_schema(
                    self@.schemas,
                    (#[trigger] self.schema_cache@[ci]).0.api_version@,
                    self.schema_cache@[ci].0.kind@,
                )
                &&& self.schema_cache@[ci].1@ == schema_of(
                    self@.schemas,
                    self.schema_cache@[ci].0.api_version@,
                    self.schema_cache@[ci].0.kind@,
                ).json_schema
            } by {
                let key = self.schema_cache@[ci].0;
                assert(has_schema(schemas0, key.api_version@, key.kind@));
                assert(!(rowv.api_version == key.api_version@ && rowv.kind == key.kind@));
                lemma_schema_of_push(schemas0, rowv, key.api_version@, key.kind@);
            }
            assert forall|ci: int| 0 <= ci < self.fk_cache@.len() implies {
                &&& has_schema(
                    self@.schemas,
                    (#[trigger] self.fk_cache@[ci]).0.api_version@,
                    self.fk_cache@[ci].0.kind@,
                )
                &&& fkcs_v(self.fk_cache@[ci].1@) == filter_fkcs(
                    self@.constraints,
                    self.fk_cache@[ci].0.api_version@,
                    self.fk_cache@[ci].0.kind@,
                )
            } by {
                let key = self.fk_cache@[ci].0;
                assert(has_schema(schemas0, key.api_version@, key.kind@));
                assert(!(rowv.api_version == key.api_version@ && rowv.kind == key.kind@));
                lemma_schema_of_push(schemas0, rowv, key.api_version@, key.kind@);
                assert forall|x: int| 0 <= x < fkcs_v(rows@).len() implies !((#[trigger] fkcs_v(
                    rows@,
                )[x]).api_version == key.api_version@ && fkcs_v(rows@)[x].kind == key.kind@) by {
                    lemma_seeded_fkcs_key(gfk, fk_ids@, api_version@, kind@, x);
                }
                lemma_filter_fkcs_append_other(
                    constraints0,
                    fkcs_v(rows@),
                    key.api_version@,
                    key.kind@,
                );
            }
            assert(self@.schemas[self@.schemas.len() - 1] == rowv);
            assert(has_schema(self@.schemas, api_version@, kind@));
        }
        Ok(())
    }

    /// Registers a schema with freshly drawn identifiers.
    pub fn seed_object_schema(
        &mut self,
        api_version: String,
        kind: String,
        aliases: Vec<String>,
        json_schema: String,
        foreign_keys: Vec<crate::models::ForeignKey>,
    ) -> (r: Result<(), DawnStoreError>)
        requires
            wf_store(*old(self)),
        ensures
            wf_store(*final(self)),
            final(self)@.objects == old(self)@.objects,
            final(self)@.relations == old(self)@.relations,
            r is Ok,
            has_schema(final(self)@.schemas, api_version@, kind@),
            has_schema(old(self)@.schemas, api_version@, kind@) ==> final(self)@ == old(self)@,
            !has_schema(old(self)@.schemas, api_version@, kind@) ==> {
                &&& final(self)@.schemas.len() == old(self)@.schemas.len() + 1
                &&& final(self)@.schemas.drop_last() == old(self)@.schemas
                &&& final(self)@.schemas.last().api_version == api_version@
                &&& final(self)@.schemas.last().kind == kind@
                &&& final(self)@.schemas.last().aliases == crate::text::views(aliases@)
                &&& final(self)@.schemas.last().json_schema == json_schema@
                &&& final(self)@.constraints.len() == old(self)@.constraints.len()
                    + foreign_keys@.len()
                &&& final(self)@.constraints.take(old(self)@.constraints.len() as int) == old(
                    self,
                )@.constraints
                &&& forall|j: int|
                    0 <= j < foreign_keys@.len() ==> {
                        let c = final(self)@.constraints[old(self)@.constraints.len() + j];
                        let f = (#[trigger] foreign_keys@[j])@;
                        &&& c.api_version == api_version@
                        &&& c.kind == kind@
                        &&& c.key_path == f.path
                        &&& c.parent_key_path == f.parent_path
                        &&& c.ty == f.ty
                        &&& c.behaviour == f.behaviour
                        &&& c.foreign_key_kind == f.foreign_kind
                    }
            },
    {
        let schema_id = crate::outside::fresh_uuid();
        let mut fk_ids: Vec<u128> = Vec::new();
        let n = foreign_keys.len();
        let mut i: usize = 0;
        while i < n
            invariant
                0 <= i <= n,
                fk_ids@.len() == i,
            decreases n - i,
        {
            let id = crate::outside::fresh_uuid();
            fk_ids.push(id);
            i = i + 1;
        }
        let ghost gids = fk_ids@;
        let ghost gfk = foreign_keys@.map_values(|f: crate::models::ForeignKey| f@);
        let r = self.seed_object_schema_at(
            api_version,
            kind,
            aliases,
            json_schema,
            foreign_keys,
            schema_id,
            fk_ids,
        );
        proof {
            if !has_schema(old(self)@.schemas, api_version@, kind@) {
                assert(self@.schemas.drop_last() =~= old(self)@.schemas);
                lemma_seeded_fkcs_len(gfk, gids, api_version@, kind@);
                assert(self@.constraints.take(old(self)@.constraints.len() as int) =~= old(
                    self,
                )@.constraints);
                assert forall|j: int| 0 <= j < foreign_keys@.len() implies {
                    let c = self@.constraints[old(self)@.constraints.len() + j];
                    let f = (#[trigger] foreign_keys@[j])@;
                    &&& c.api_version == api_version@
                    &&& c.kind == kind@
                    &&& c.key_path == f.path
                    &&& c.parent_key_path == f.parent_path
                    &&& c.ty == f.ty
                    &&& c.behaviour == f.behaviour
                    &&& c.foreign_key_kind == f.foreign_kind
                } by {
                    lemma_seeded_fkcs_index(gfk, gids, api_version@, kind@, j);
                    assert(gfk[j] == foreign_keys@[j]@);
                    assert(self@.constraints[old(self)@.constraints.len() + j] == seeded_fkcs(
                        gfk,
                        gids,
                        api_version@,
                        kind@,
                    )[j]);
                }
            }
        }
        r
    }
}

// ---------------------------------------------------------------------
// The apply pipeline over the store.
// ---------------------------------------------------------------------

/// One input object after validation: its resolved identity, defaulted
/// fields and resolved references.
pub struct Prepared {
    pub name: String,
    pub api_version: String,
    pub kind: String,
    pub ns: String,
    pub string_id: String,
    pub annotations: crate::models::StringMap,
    pub labels: crate::models::StringMap,
    pub spec: crate::json::JsonVal,
    pub fks: Vec<(Vec<String>, u128)>,
}

pub struct PreparedV {
    pub name: Seq<char>,
    pub api_version: Seq<char>,
    pub kind: Seq<char>,
    pub ns: Seq<char>,
    pub string_id: Seq<char>,
    pub annotations: Seq<(Seq<char>, Seq<char>)>,
    pub labels: Seq<(Seq<char>, Seq<char>)>,
    pub spec: crate::json::Jv,
    pub fks: Seq<(Seq<Seq<char>>, u128)>,
}

impl View for Prepared {
    type V = PreparedV;

    open spec fn view(&self) -> PreparedV {
        PreparedV {
            name: self.name@,
            api_version: self.api_version@,
            kind: self.kind@,
            ns: self.ns@,
            string_id: self.string_id@,
            annotations: crate::models::smap_v(self.annotations@),
            labels: crate::models::smap_v(self.labels@),
            spec: self.spec@,
            fks: crate::apply_impl::fklists_v(self.fks@),
        }
    }
}

pub open spec fn schema_unusable_msg() -> Seq<char> {
    "the registered schema could not be compiled"@
}

/// The schema verdict for one object: the kind must be registered, the
/// stored schema text must compile, and the rendered spec must satisfy
/// it.
pub open spec fn validate_schema_spec(
    schemas: Seq<ObjectSchemaV>,
    av: Seq<char>,
    kind: Seq<char>,
    name: Seq<char>,
    sp: crate::json::Jv,
) -> Result<(), ErrV> {
    if !has_schema(schemas, av, kind) {
        Err(ErrV::NoSchemaForObjectFound { api_version: av, kind: kind })
    } else {
        let text = schema_of(schemas, av, kind).json_schema;
        let inst = crate::render::text_of(sp);
        if !crate::outside::schema_usable(text, inst) {
            Err(ErrV::JsonSchemaValidatorCreationError(schema_unusable_msg()))
        } else if !crate::outside::schema_accepts(text, inst) {
            Err(
                ErrV::ObjectValidationError {
                    api_version: av,
                    kind: kind,
                    name: name,
                    validation_error: crate::outside::schema_diagnostic(text, inst),
                },
            )
        } else {
            Ok(())
        }
    }
}

/// One object validated and prepared: required metadata, namespace
/// defaulting, the schema verdict, then the reference check.
pub open spec fn validate_one(
    schemas: Seq<ObjectSchemaV>,
    constraints: Seq<ForeignKeyConstraintV>,
    o: crate::models::ObjectV,
) -> Result<PreparedV, ErrV> {
    match o.api_version {
        Option::None => Err(ErrV::ApiVersionMissingInObject),
        Option::Some(av) => match o.kind {
            Option::None => Err(ErrV::KindMissingInObject),
            Option::Some(kind) => {
                let ns = match o.namespace {
                    Option::None => "default"@,
                    Option::Some(n) => n,
                };
                match validate_schema_spec(schemas, av, kind, o.name, o.spec) {
                    Err(e) => Err(e),
                    Ok(()) => {
                        let cx = crate::apply_impl::FkCtxV {
                            api_version: av,
                            kind: kind,
                            name: o.name,
                            ns: ns,
                        };
                        match crate::apply_impl::fks_spec(
                            filter_fkcs(constraints, av, kind),
                            o.spec,
                            cx,
                        ) {
                            Err(e) => Err(e),
                            Ok(fks) => Ok(
                                PreparedV {
                                    name: o.name,
                                    api_version: av,
                                    kind: kind,
                                    ns: ns,
                                    string_id: crate::text::spec_string_id(ns, kind, o.name),
                                    annotations: match o.annotations {
                                        Option::None => Seq::empty(),
                                        Option::Some(a) => a,
                                    },
                                    labels: match o.labels {
                                        Option::None => Seq::empty(),
                                        Option::Some(l) => l,
                                    },
                                    spec: o.spec,
                                    fks: fks,
                                },
                            ),
                        }
                    },
                }
            },
        },
    }
}

/// Every input object in order; the first rejected one wins.
pub open spec fn validate_all(
    schemas: Seq<ObjectSchemaV>,
    constraints: Seq<ForeignKeyConstraintV>,
    objs: Seq<crate::models::ObjectV>,
) -> Result<Seq<PreparedV>, ErrV>
    decreases objs.len(),
{
    if objs.len() == 0 {
        Ok(Seq::empty())
    } else {
        match validate_one(schemas, constraints, objs.first()) {
            Err(e) => Err(e),
            Ok(p) => match validate_all(schemas, constraints, objs.drop_first()) {
                Err(e) => Err(e),
                Ok(rest) => Ok(seq![p] + rest),
            },
        }
    }
}

/// The `string_id` of every object of the batch.
pub open spec fn batch_sids(pre: Seq<PreparedV>) -> Seq<Seq<char>> {
    pre.map_values(|p: PreparedV| p.string_id)
}

/// The first reference target that is neither in the batch nor stored.
pub open spec fn missing_in_targets(
    t: Seq<DbObjectV>,
    sids: Seq<Seq<char>>,
    ts: Seq<Seq<char>>,
) -> Option<Seq<char>>
    decreases ts.len(),
{
    if ts.len() == 0 {
        Option::None
    } else if !sids.contains(ts.first()) && !crate::queries::has_obj_sid(t, ts.first()) {
        Option::Some(ts.first())
    } else {
        missing_in_targets(t, sids, ts.drop_first())
    }
}

pub open spec fn missing_in_fks(
    t: Seq<DbObjectV>,
    sids: Seq<Seq<char>>,
    fks: Seq<(Seq<Seq<char>>, u128)>,
) -> Option<Seq<char>>
    decreases fks.len(),
{
    if fks.len() == 0 {
        Option::None
    } else {
        match missing_in_targets(t, sids, fks.first().0) {
            Option::Some(v) => Option::Some(v),
            Option::None => missing_in_fks(t, sids, fks.drop_first()),
        }
    }
}

/// Every reference of every object must point into the batch or into
/// the store; the first miss, in object order, is the error.
pub open spec fn check_targets(
    t: Seq<DbObjectV>,
    sids: Seq<Seq<char>>,
    pre: Seq<PreparedV>,
) -> Result<(), ErrV>
    decreases pre.len(),
{
    if pre.len() == 0 {
        Ok(())
    } else {
        match missing_in_fks(t, sids, pre.first().fks) {
            Option::Some(v) => Err(
                ErrV::ObjectValidationForeignKeyNotFound {
                    api_version: pre.first().api_version,
                    kind: pre.first().kind,
                    name: pre.first().name,
                    value: v,
                },
            ),
            Option::None => check_targets(t, sids, pre.drop_first()),
        }
    }
}

/// The stored row an object of the batch becomes: identity is reused
/// when the `string_id` is already stored, otherwise the given fresh
/// identifier and the given instant are used.
pub open spec fn row_for(t: Seq<DbObjectV>, p: PreparedV, now: i64, fid: u128) -> DbObjectV {
    if crate::queries::has_obj_sid(t, p.string_id) {
        let ex = t[crate::queries::obj_idx_by_sid(t, p.string_id)];
        DbObjectV {
            id: ex.id,
            string_id: p.string_id,
            api_version: p.api_version,
            name: p.name,
            kind: p.kind,
            created_at: ex.created_at,
            updated_at: now,
            namespace: p.ns,
            annotations: p.annotations,
            labels: p.labels,
            owners: Seq::empty(),
            spec: p.spec,
        }
    } else {
        DbObjectV {
            id: fid,
            string_id: p.string_id,
            api_version: p.api_version,
            name: p.name,
            kind: p.kind,
            created_at: now,
            updated_at: now,
            namespace: p.ns,
            annotations: p.annotations,
            labels: p.labels,
            owners: Seq::empty(),
            spec: p.spec,
        }
    }
}

/// The planned rows and the unconsumed identifiers.
pub open spec fn plan_rows(
    t: Seq<DbObjectV>,
    pre: Seq<PreparedV>,
    now: i64,
    ids: Seq<u128>,
) -> (Seq<DbObjectV>, Seq<u128>)
    decreases pre.len(),
{
    if pre.len() == 0 {
        (Seq::empty(), ids)
    } else if crate::queries::has_obj_sid(t, pre.first().string_id) {
        let rest = plan_rows(t, pre.drop_first(), now, ids);
        (seq![row_for(t, pre.first(), now, 0)] + rest.0, rest.1)
    } else {
        let rest = plan_rows(t, pre.drop_first(), now, ids.drop_first());
        (seq![row_for(t, pre.first(), now, ids.first())] + rest.0, rest.1)
    }
}

/// The edges one constraint's targets become, resolved against the
/// freshly upserted table.
pub open spec fn rels_for_targets(
    t2: Seq<DbObjectV>,
    oid: u128,
    ts: Seq<Seq<char>>,
    fkid: u128,
) -> Result<Seq<Relation>, ErrV>
    decreases ts.len(),
{
    if ts.len() == 0 {
        Ok(Seq::empty())
    } else if !crate::queries::has_obj_sid(t2, ts.first()) {
        Err(ErrV::ForeignKeyNotFound(ts.first()))
    } else {
        let tid = t2[crate::queries::obj_idx_by_sid(t2, ts.first())].id;
        match rels_for_targets(t2, oid, ts.drop_first(), fkid) {
            Err(e) => Err(e),
            Ok(rest) => Ok(
                seq![
                    Relation { object_id: oid, foreign_object_id: tid, foreign_key_id: fkid },
                ] + rest,
            ),
        }
    }
}

pub open spec fn rels_for_obj(
    t2: Seq<DbObjectV>,
    oid: u128,
    fks: Seq<(Seq<Seq<char>>, u128)>,
) -> Result<Seq<Relation>, ErrV>
    decreases fks.len(),
{
    if fks.len() == 0 {
        Ok(Seq::empty())
    } else {
        match rels_for_targets(t2, oid, fks.first().0, fks.first().1) {
            Err(e) => Err(e),
            Ok(one) => match rels_for_obj(t2, oid, fks.drop_first()) {
                Err(e) => Err(e),
                Ok(rest) => Ok(one + rest),
            },
        }
    }
}

/// The desired edge set of the whole batch, in object order.
pub open spec fn rels_all(
    t2: Seq<DbObjectV>,
    rows: Seq<DbObjectV>,
    pre: Seq<PreparedV>,
) -> Result<Seq<Relation>, ErrV>
    decreases pre.len(),
{
    if pre.len() == 0 || rows.len() == 0 {
        Ok(Seq::empty())
    } else {
        match rels_for_obj(t2, rows.first().id, pre.first().fks) {
            Err(e) => Err(e),
            Ok(one) => match rels_all(t2, rows.drop_first(), pre.drop_first()) {
                Err(e) => Err(e),
                Ok(rest) => Ok(one + rest),
            },
        }
    }
}

/// The public projection of a stored row.
pub open spec fn ret_of(row: DbObjectV) -> crate::models::ReturnObjectV {
    crate::models::ReturnObjectV {
        id: row.id,
        namespace: row.namespace,
        api_version: row.api_version,
        kind: row.kind,
        name: row.name,
        created_at: row.created_at,
        updated_at: row.updated_at,
        annotations: Option::Some(row.annotations),
        labels: Option::Some(row.labels),
        owners: Option::Some(Seq::empty()),
        spec: row.spec,
    }
}

/// What an apply does to the object and relation tables, and what it
/// returns.
pub struct ApplyEffect {
    pub objects: Seq<DbObjectV>,
    pub relations: Seq<Relation>,
    pub result: Result<Seq<crate::models::ReturnObjectV>, ErrV>,
}

pub open spec fn unchanged_with(s: StoreV, e: ErrV) -> ApplyEffect {
    ApplyEffect { objects: s.objects, relations: s.relations, result: Err(e) }
}

/// The whole apply as one transition: normalize, validate, check
/// targets, upsert the planned rows, and reconcile the relations of
/// the applied objects.
pub open spec fn apply_spec(s: StoreV, doc: crate::json::Jv, now: i64, ids: Seq<u128>) -> ApplyEffect {
    match crate::apply_impl::norm_doc(doc) {
        Err(e) => unchanged_with(s, e),
        Ok(objs) => match validate_all(s.schemas, s.constraints, objs) {
            Err(e) => unchanged_with(s, e),
            Ok(pre) => match check_targets(s.objects, batch_sids(pre), pre) {
                Err(e) => unchanged_with(s, e),
                Ok(()) => {
                    let rows = plan_rows(s.objects, pre, now, ids).0;
                    match crate::queries::upsert_all(s.objects, rows) {
                        Err(_) => unchanged_with(s, ErrV::DatabaseError(Seq::empty())),
                        Ok(t2) => match rels_all(t2, rows, pre) {
                            Err(e) => unchanged_with(s, e),
                            Ok(desired) => {
                                let applied = rows.map_values(|r: DbObjectV| r.id);
                                let existing = crate::queries::filter_rels(s.relations, applied);
                                let stale = crate::queries::remove_rels(existing, desired);
                                let rels2 = crate::queries::add_missing(
                                    crate::queries::remove_rels(s.relations, stale),
                                    desired,
                                );
                                ApplyEffect {
                                    objects: t2,
                                    relations: rels2,
                                    result: Ok(rows.map_values(|r: DbObjectV| ret_of(r))),
                                }
                            },
                        },
                    }
                },
            },
        },
    }
}

pub open spec fn preps_v(s: Seq<Prepared>) -> Seq<PreparedV> {
    s.map_values(|p: Prepared| p@)
}

pub open spec fn rets_v(s: Seq<crate::models::ReturnObject>) -> Seq<crate::models::ReturnObjectV> {
    s.map_values(|r: crate::models::ReturnObject| r@)
}

/// A validated batch has one prepared object per input.
pub proof fn lemma_validate_all_len(
    schemas: Seq<ObjectSchemaV>,
    constraints: Seq<ForeignKeyConstraintV>,
    objs: Seq<crate::models::ObjectV>,
)
    requires
        validate_all(schemas, constraints, objs) is Ok,
    ensures
        validate_all(schemas, constraints, objs)->Ok_0.len() == objs.len(),
    decreases objs.len(),
{
    if objs.len() > 0 {
        lemma_validate_all_len(schemas, constraints, objs.drop_first());
    }
}

/// Copies of constraint rows, with the same views.
fn clone_fkcs(rows: &Vec<ForeignKeyConstraint>) -> (r: Vec<ForeignKeyConstraint>)
    ensures
        fkcs_v(r@) == fkcs_v(rows@),
{
    let mut out: Vec<ForeignKeyConstraint> = Vec::new();
    let mut i: usize = 0;
    while i < rows.len()
        invariant
            0 <= i <= rows.len(),
            out@.len() == i,
            forall|j: int| 0 <= j < i ==> #[trigger] out@[j]@ == rows@[j]@,
        decreases rows.len() - i,
    {
        let row = rows[i].duplicate();
        out.push(row);
        i = i + 1;
    }
    proof {
        assert(fkcs_v(out@) =~= fkcs_v(rows@));
    }
    out
}

/// The stored identity carried by a `string_id`, when there is one.
fn find_info(table: &Vec<Object>, sid: &String) -> (r: Option<(u128, i64)>)
    requires
        wf_objects(objects_v(table@)),
    ensures
        match r {
            Option::Some(p) => crate::queries::has_obj_sid(objects_v(table@), sid@) && {
                let ex = objects_v(table@)[crate::queries::obj_idx_by_sid(
                    objects_v(table@),
                    sid@,
                )];
                p.0 == ex.id && p.1 == ex.created_at
            },
            Option::None => !crate::queries::has_obj_sid(objects_v(table@), sid@),
        },
{
    let ghost gt = objects_v(table@);
    let mut i: usize = 0;
    while i < table.len()
        invariant
            0 <= i <= table.len(),
            gt == objects_v(table@),
            gt.len() == table@.len(),
            wf_objects(gt),
            forall|j: int| 0 <= j < i ==> (#[trigger] gt[j]).string_id != sid@,
        decreases table.len() - i,
    {
        proof {
            assert(gt[i as int] == table@[i as int]@);
        }
        if table[i].string_id == *sid {
            proof {
                assert(gt[i as int].string_id == sid@);
                assert(crate::queries::has_obj_sid(gt, sid@));
                let w = crate::queries::obj_idx_by_sid(gt, sid@);
                assert(gt[w].string_id == sid@);
                assert(w == i as int);
            }
            return Option::Some((table[i].id, table[i].created_at));
        }
        i = i + 1;
    }
    Option::None
}

/// The row with this `id`, when there is one.
fn find_row_by_sid<'a>(table: &'a Vec<Object>, sid: &String) -> (r: Option<&'a Object>)
    requires
        wf_objects(objects_v(table@)),
    ensures
        match r {
            Option::Some(row) => crate::queries::has_obj_sid(objects_v(table@), sid@) && row@
                == objects_v(table@)[crate::queries::obj_idx_by_sid(objects_v(table@), sid@)],
            Option::None => !crate::queries::has_obj_sid(objects_v(table@), sid@),
        },
{
    let ghost gt = objects_v(table@);
    let mut i: usize = 0;
    while i < table.len()
        invariant
            0 <= i <= table.len(),
            gt == objects_v(table@),
            gt.len() == table@.len(),
            wf_objects(gt),
            forall|j: int| 0 <= j < i ==> (#[trigger] gt[j]).string_id != sid@,
        decreases table.len() - i,
    {
        proof {
            assert(gt[i as int] == table@[i as int]@);
        }
        if table[i].string_id == *sid {
            proof {
                assert(gt[i as int].string_id == sid@);
                assert(crate::queries::has_obj_sid(gt, sid@));
                let w = crate::queries::obj_idx_by_sid(gt, sid@);
                assert(gt[w].string_id == sid@);
                assert(w == i as int);
            }
            return Option::Some(&table[i]);
        }
        i = i + 1;
    }
    Option::None
}

impl Store {
    /// The schema text for a key, through the cache; a miss reads the
    /// table and fills the cache.
    fn get_schema_text(&mut self, api_version: &String, kind: &String) -> (r: Result<
        String,
        DawnStoreError,
    >)
        requires
            wf_store(*old(self)),
        ensures
            wf_store(*final(self)),
            final(self)@ == old(self)@,
            final(self).fk_cache@ == old(self).fk_cache@,
            cache_extends(final(self).schema_cache@, old(self).schema_cache@),
            match r {
                Ok(text) => has_schema(final(self)@.schemas, api_version@, kind@) && text@
                    == schema_of(final(self)@.schemas, api_version@, kind@).json_schema
                    && schema_key_cached(final(self).schema_cache@, api_version@, kind@),
                Err(e) => !has_schema(final(self)@.schemas, api_version@, kind@) && e@
                    == (ErrV::NoSchemaForObjectFound { api_version: api_version@, kind: kind@ })
                    && final(self).schema_cache@ == old(self).schema_cache@,
            },
    {
        let n = self.schema_cache.len();
        let mut i: usize = 0;
        while i < n
            invariant
                0 <= i <= n,
                n == self.schema_cache@.len(),
                wf_store(*self),
                self == old(self),
            decreases n - i,
        {
            if self.schema_cache[i].0.api_version == *api_version && self.schema_cache[i].0.kind
                == *kind {
                let text = self.schema_cache[i].1.clone();
                proof {
                    assert(schema_cache_ok(self.schema_cache@, self@.schemas));
                    assert(self.schema_cache@[i as int].0.api_version@ == api_version@);
                    assert(self.schema_cache@[i as int].0.kind@ == kind@);
                    assert(schema_key_cached(self.schema_cache@, api_version@, kind@));
                }
                return Ok(text);
            }
            i = i + 1;
        }
        let found = match crate::queries::get_object_schema(&self.schemas, api_version, kind) {
            Option::Some(row) => Option::Some(row.json_schema.clone()),
            Option::None => Option::None,
        };
        match found {
            Option::None => Err(
                DawnStoreError::NoSchemaForObjectFound {
                    api_version: api_version.clone(),
                    kind: kind.clone(),
                },
            ),
            Option::Some(text) => {
                let key = ObjectId { kind: kind.clone(), api_version: api_version.clone() };
                let copy = text.clone();
                let ghost cache0 = self.schema_cache@;
                self.schema_cache.push((key, copy));
                proof {
                    assert(self.schema_cache@[cache0.len() as int].0.api_version@
                        == api_version@);
                    assert(self.schema_cache@[cache0.len() as int].0.kind@ == kind@);
                    assert(schema_key_cached(self.schema_cache@, api_version@, kind@));
                    assert forall|ci: int| 0 <= ci < self.schema_cache@.len() implies {
                        &&& has_schema(
                            self@.schemas,
                            (#[trigger] self.schema_cache@[ci]).0.api_version@,
                            self.schema_cache@[ci].0.kind@,
                        )
                        &&& self.schema_cache@[ci].1@ == schema_of(
                            self@.schemas,
                            self.schema_cache@[ci].0.api_version@,
                            self.schema_cache@[ci].0.kind@,
                        ).json_schema
                    } by {
                        if ci < cache0.len() {
                            assert(cache0[ci] == self.schema_cache@[ci]);
                            assert(schema_cache_ok(cache0, self@.schemas));
                        }
                    }
                }
                Ok(text)
            },
        }
    }

    /// Validates one object's spec against the registered schema for
    /// its type, as `validate_schema_spec` fixes it.
    pub fn validate_object_schema(
        &mut self,
        sp: &crate::json::JsonVal,
        api_version: &String,
        kind: &String,
        name: &String,
    ) -> (r: Result<(), DawnStoreError>)
        requires
            wf_store(*old(self)),
        ensures
            wf_store(*final(self)),
            final(self)@ == old(self)@,
            final(self).fk_cache@ == old(self).fk_cache@,
            cache_extends(final(self).schema_cache@, old(self).schema_cache@),
            has_schema(final(self)@.schemas, api_version@, kind@) ==> schema_key_cached(
                final(self).schema_cache@,
                api_version@,
                kind@,
            ),
            match r {
                Ok(()) => validate_schema_spec(
                    final(self)@.schemas,
                    api_version@,
                    kind@,
                    name@,
                    sp@,
                ) is Ok,
                Err(e) => validate_schema_spec(final(self)@.schemas, api_version@, kind@, name@, sp@)
                    == Err::<(), _>(e@),
            },
    {
        let text = match self.get_schema_text(api_version, kind) {
            Ok(t) => t,
            Err(e) => {
                return Err(e);
            },
        };
        let inst = crate::render::to_text(sp);
        match crate::outside::check_schema(text.as_str(), inst.as_str()) {
            Option::None => Err(
                DawnStoreError::JsonSchemaValidatorCreationError(
                    String::from_str("the registered schema could not be compiled"),
                ),
            ),
            Option::Some(verdict) => match verdict {
                Ok(()) => Ok(()),
                Err(msg) => Err(
                    DawnStoreError::ObjectValidationError {
                        api_version: api_version.clone(),
                        kind: kind.clone(),
                        name: name.clone(),
                        validation_error: msg,
                    },
                ),
            },
        }
    }

    /// The constraints of a registered type, through the cache.
    fn get_constraints_cached(&mut self, api_version: &String, kind: &String) -> (r: Vec<
        ForeignKeyConstraint,
    >)
        requires
            wf_store(*old(self)),
            has_schema(old(self)@.schemas, api_version@, kind@),
        ensures
            wf_store(*final(self)),
            final(self)@ == old(self)@,
            final(self).schema_cache@ == old(self).schema_cache@,
            cache_extends(final(self).fk_cache@, old(self).fk_cache@),
            fk_key_cached(final(self).fk_cache@, api_version@, kind@),
            fkcs_v(r@) == filter_fkcs(final(self)@.constraints, api_version@, kind@),
    {
        let n = self.fk_cache.len();
        let mut i: usize = 0;
        while i < n
            invariant
                0 <= i <= n,
                n == self.fk_cache@.len(),
                wf_store(*self),
                self == old(self),
            decreases n - i,
        {
            if self.fk_cache[i].0.api_version == *api_version && self.fk_cache[i].0.kind == *kind {
                proof {
                    assert(fk_cache_ok(self.fk_cache@, self@.schemas, self@.constraints));
                    assert(self.fk_cache@[i as int].0.api_version@ == api_version@);
                    assert(self.fk_cache@[i as int].0.kind@ == kind@);
                    assert(fk_key_cached(self.fk_cache@, api_version@, kind@));
                }
                let list = clone_fkcs(&self.fk_cache[i].1);
                return list;
            }
            i = i + 1;
        }
        let list = crate::queries::get_foreign_key_constraints(
            &self.constraints,
            api_version,
            kind,
        );
        let copy = clone_fkcs(&list);
        let key = ObjectId { kind: kind.clone(), api_version: api_version.clone() };
        let ghost cache0 = self.fk_cache@;
        self.fk_cache.push((key, copy));
        proof {
            assert(self.fk_cache@[cache0.len() as int].0.api_version@ == api_version@);
            assert(self.fk_cache@[cache0.len() as int].0.kind@ == kind@);
            assert(fk_key_cached(self.fk_cache@, api_version@, kind@));
            assert forall|ci: int| 0 <= ci < self.fk_cache@.len() implies {
                &&& has_schema(
                    self@.schemas,
                    (#[trigger] self.fk_cache@[ci]).0.api_version@,
                    self.fk_cache@[ci].0.kind@,
                )
                &&& fkcs_v(self.fk_cache@[ci].1@) == filter_fkcs(
                    self@.constraints,
                    self.fk_cache@[ci].0.api_version@,
                    self.fk_cache@[ci].0.kind@,
                )
            } by {
                if ci < cache0.len() {
                    assert(cache0[ci] == self.fk_cache@[ci]);
                    assert(fk_cache_ok(cache0, self@.schemas, self@.constraints));
                }
            }
        }
        list
    }

    /// Validates and prepares one input object, as `validate_one`
    /// fixes it.
    fn validate_one_exec(&mut self, obj: crate::models::Object) -> (r: Result<
        Prepared,
        DawnStoreError,
    >)
        requires
            wf_store(*old(self)),
        ensures
            wf_store(*final(self)),
            final(self)@ == old(self)@,
            match r {
                Ok(p) => validate_one(final(self)@.schemas, final(self)@.constraints, obj@) == Ok::<
                    _,
                    ErrV,
                >(p@),
                Err(e) => validate_one(final(self)@.schemas, final(self)@.constraints, obj@)
                    == Err::<PreparedV, _>(e@),
            },
    {
        let crate::models::Object { name, kind, api_version, namespace, annotations, labels, spec } =
            obj;
        let av = match api_version {
            Option::Some(x) => x,
            Option::None => {
                return Err(DawnStoreError::ApiVersionMissingInObject);
            },
        };
        let kind = match kind {
            Option::Some(x) => x,
            Option::None => {
                return Err(DawnStoreError::KindMissingInObject);
            },
        };
        let ns = match namespace {
            Option::Some(n) => n,
            Option::None => String::from_str("default"),
        };
        match self.validate_object_schema(&spec, &av, &kind, &name) {
            Ok(()) => {},
            Err(e) => {
                return Err(e);
            },
        }
        let constraints = self.get_constraints_cached(&av, &kind);
        let fks = match crate::apply_impl::check_foreign_keys(
            &constraints,
            &spec,
            &av,
            &kind,
            &name,
            &ns,
        ) {
            Ok(f) => f,
            Err(e) => {
                return Err(e);
            },
        };
        let string_id = crate::text::make_string_id(&ns, &kind, &name);
        let annotations = match annotations {
            Option::Some(a) => a,
            Option::None => Vec::new(),
        };
        let labels = match labels {
            Option::Some(l) => l,
            Option::None => Vec::new(),
        };
        let p = Prepared {
            name,
            api_version: av,
            kind,
            ns,
            string_id,
            annotations,
            labels,
            spec,
            fks,
        };
        proof {
            assert(crate::models::smap_v(Seq::<(String, String)>::empty()) =~= Seq::<
                (Seq<char>, Seq<char>),
            >::empty());
        }
        Ok(p)
    }

    /// Validates and prepares a whole batch, as `validate_all` fixes
    /// it.
    fn validate_list(&mut self, objs: Vec<crate::models::Object>) -> (r: Result<
        Vec<Prepared>,
        DawnStoreError,
    >)
        requires
            wf_store(*old(self)),
        ensures
            wf_store(*final(self)),
            final(self)@ == old(self)@,
            match r {
                Ok(ps) => validate_all(
                    final(self)@.schemas,
                    final(self)@.constraints,
                    crate::apply_impl::objs_v(objs@),
                ) == Ok::<_, ErrV>(preps_v(ps@)),
                Err(e) => validate_all(
                    final(self)@.schemas,
                    final(self)@.constraints,
                    crate::apply_impl::objs_v(objs@),
                ) == Err::<Seq<PreparedV>, _>(e@),
            },
        decreases objs@.len(),
    {
        let ghost gobjs = crate::apply_impl::objs_v(objs@);
        let mut objs = objs;
        if objs.len() == 0 {
            let empty: Vec<Prepared> = Vec::new();
            proof {
                assert(preps_v(empty@) =~= Seq::<PreparedV>::empty());
            }
            return Ok(empty);
        }
        let first = objs.remove(0);
        proof {
            assert(gobjs.first() == first@);
            assert(crate::apply_impl::objs_v(objs@) =~= gobjs.drop_first());
        }
        match self.validate_one_exec(first) {
            Err(e) => Err(e),
            Ok(p) => {
                match self.validate_list(objs) {
                    Err(e) => Err(e),
                    Ok(rest) => {
                        let ghost grest = preps_v(rest@);
                        let ghost gp = p@;
                        let mut rest = rest;
                        rest.insert(0, p);
                        proof {
                            assert(preps_v(rest@) =~= seq![gp] + grest);
                        }
                        Ok(rest)
                    },
                }
            },
        }
    }
}

/// Whether some reference of the batch has no target, searching in
/// batch order, as `check_targets` fixes it.
#[verifier::loop_isolation(false)]
fn check_targets_exec(
    objects: &Vec<Object>,
    sids: &Vec<String>,
    pre: &Vec<Prepared>,
) -> (r: Result<(), DawnStoreError>)
    ensures
        match r {
            Ok(()) => check_targets(objects_v(objects@), crate::text::views(sids@), preps_v(pre@))
                is Ok,
            Err(e) => check_targets(objects_v(objects@), crate::text::views(sids@), preps_v(pre@))
                == Err::<(), _>(e@),
        },
{
    let ghost gt = objects_v(objects@);
    let ghost gsids = crate::text::views(sids@);
    let ghost gpre = preps_v(pre@);
    let mut i: usize = 0;
    proof {
        assert(gpre.skip(0) =~= gpre);
    }
    while i < pre.len()
        invariant
            0 <= i <= pre.len(),
            gpre.len() == pre@.len(),
            check_targets(gt, gsids, gpre) == check_targets(gt, gsids, gpre.skip(i as int)),
        decreases pre.len() - i,
    {
        proof {
            assert(gpre.skip(i as int).first() == gpre[i as int]);
            assert(gpre[i as int] == pre@[i as int]@);
            assert(gpre.skip(i as int).drop_first() =~= gpre.skip(i + 1));
        }
        let p = &pre[i];
        let ghost gfks = p@.fks;
        let mut j: usize = 0;
        proof {
            assert(gfks.skip(0) =~= gfks);
        }
        while j < p.fks.len()
            invariant
                0 <= j <= p.fks.len(),
                gfks == pre@[i as int]@.fks,
                i < pre@.len(),
                gfks.len() == p.fks@.len(),
                p == &pre[i as int],
                missing_in_fks(gt, gsids, gfks) == missing_in_fks(gt, gsids, gfks.skip(j as int)),
            decreases p.fks.len() - j,
        {
            proof {
                assert(gfks.skip(j as int).first() == gfks[j as int]);
                assert(gfks[j as int] == (crate::text::views(p.fks@[j as int].0@), p.fks@[j as int].1));
                assert(gfks.skip(j as int).drop_first() =~= gfks.skip(j + 1));
            }
            let ts = &p.fks[j].0;
            let ghost gts = crate::text::views(ts@);
            let mut k: usize = 0;
            proof {
                assert(gts.skip(0) =~= gts);
            }
            while k < ts.len()
                invariant
                    0 <= k <= ts.len(),
                    gts == crate::text::views(pre@[i as int].fks@[j as int].0@),
                    i < pre@.len(),
                    j < pre@[i as int].fks@.len(),
                    gts.len() == ts@.len(),
                    ts == &pre[i as int].fks[j as int].0,
                    p == &pre[i as int],
                    missing_in_targets(gt, gsids, gts) == missing_in_targets(
                        gt,
                        gsids,
                        gts.skip(k as int),
                    ),
                decreases ts.len() - k,
            {
                proof {
                    assert(gts.skip(k as int).first() == gts[k as int]);
                    assert(gts[k as int] == ts@[k as int]@);
                    assert(gts.skip(k as int).drop_first() =~= gts.skip(k + 1));
                }
                let t = &ts[k];
                let in_batch = crate::queries::contains_string(sids, t);
                if !in_batch {
                    let stored = crate::queries::object_exists(objects, t);
                    if !stored {
                        return Err(
                            DawnStoreError::ObjectValidationForeignKeyNotFound {
                                api_version: p.api_version.clone(),
                                kind: p.kind.clone(),
                                name: p.name.clone(),
                                value: t.clone(),
                            },
                        );
                    }
                }
                k = k + 1;
            }
            proof {
                assert(gts.skip(ts@.len() as int) =~= Seq::<Seq<char>>::empty());
                assert(missing_in_targets(gt, gsids, gts) is None);
            }
            j = j + 1;
        }
        proof {
            assert(gfks.skip(p.fks@.len() as int) =~= Seq::<(Seq<Seq<char>>, u128)>::empty());
            assert(missing_in_fks(gt, gsids, gfks) is None);
        }
        i = i + 1;
    }
    proof {
        assert(gpre.skip(pre@.len() as int) =~= Seq::<PreparedV>::empty());
    }
    Ok(())
}

/// Builds the stored rows of the batch, as `plan_rows` fixes it:
/// `infos` identity reuse against the table as it stood, fresh
/// identifiers for the rest, one shared instant.
#[verifier::loop_isolation(false)]
fn plan_rows_exec(
    table: &Vec<Object>,
    pre: &Vec<Prepared>,
    i: usize,
    now: i64,
    ids: &Vec<u128>,
    next: usize,
) -> (r: (Vec<Object>, usize))
    requires
        wf_objects(objects_v(table@)),
        0 <= i <= pre@.len(),
        0 <= next <= ids@.len(),
        ids@.len() - next >= pre@.len() - i,
    ensures
        ({
            let out = plan_rows(
                objects_v(table@),
                preps_v(pre@).skip(i as int),
                now,
                ids@.skip(next as int),
            );
            &&& objects_v(r.0@) == out.0
            &&& next <= r.1 <= ids@.len()
            &&& ids@.skip(r.1 as int) == out.1
        }),
    decreases pre@.len() - i,
{
    let ghost gt = objects_v(table@);
    let ghost gpre = preps_v(pre@);
    if i == pre.len() {
        let empty: Vec<Object> = Vec::new();
        proof {
            assert(gpre.skip(i as int) =~= Seq::<PreparedV>::empty());
            assert(objects_v(empty@) =~= Seq::<DbObjectV>::empty());
        }
        return (empty, next);
    }
    proof {
        assert(gpre.skip(i as int).first() == gpre[i as int]);
        assert(gpre[i as int] == pre@[i as int]@);
        assert(gpre.skip(i as int).drop_first() =~= gpre.skip(i + 1));
    }
    let avail = ids.len();
    proof {
        assert(i < pre@.len());
        assert(ids@.len() - next >= 1);
        assert(next < avail);
    }
    let p = &pre[i];
    let info = find_info(table, &p.string_id);
    let (id, created_at, next2): (u128, i64, usize) = match info {
        Option::Some(pair) => (pair.0, pair.1, next),
        Option::None => {
            proof {
                assert(ids@.skip(next as int).first() == ids@[next as int]);
            }
            (ids[next], now, next + 1)
        },
    };
    let row = Object {
        id,
        string_id: p.string_id.clone(),
        api_version: p.api_version.clone(),
        name: p.name.clone(),
        kind: p.kind.clone(),
        created_at,
        updated_at: now,
        namespace: p.ns.clone(),
        annotations: crate::models::clone_smap(&p.annotations),
        labels: crate::models::clone_smap(&p.labels),
        owners: Vec::new(),
        spec: crate::json::deep_copy(&p.spec),
    };
    proof {
        if crate::queries::has_obj_sid(gt, gpre[i as int].string_id) {
            assert(row@ == row_for(gt, gpre[i as int], now, 0));
        } else {
            assert(row@ == row_for(gt, gpre[i as int], now, ids@[next as int]));
        }
        assert(ids@.skip(next as int).drop_first() =~= ids@.skip(next + 1));
    }
    let ghost grow = row@;
    let (rest, fin) = plan_rows_exec(table, pre, i + 1, now, ids, next2);
    let ghost grest = objects_v(rest@);
    let mut rest = rest;
    rest.insert(0, row);
    proof {
        assert(objects_v(rest@) =~= seq![grow] + grest);
    }
    (rest, fin)
}

/// Plans the stored rows of a validated batch against the table as it
/// stands, reusing stored identities for known names and drawing fresh
/// ones for the rest, then runs the batch upsert: the transactional
/// write of an apply. On an error the table is left untouched, as the
/// surrounding transaction's rollback would leave it.
#[verifier::loop_isolation(false)]
pub fn maintain_objects(
    objects: &mut Vec<Object>,
    pre: &Vec<Prepared>,
    now: i64,
    fresh_ids: &Vec<u128>,
) -> (r: Result<Vec<Object>, DawnStoreError>)
    requires
        wf_objects(objects_v(old(objects)@)),
        fresh_ids@.len() >= pre@.len(),
    ensures
        ({
            let rows = plan_rows(objects_v(old(objects)@), preps_v(pre@), now, fresh_ids@).0;
            match r {
                Ok(out) => {
                    &&& objects_v(out@) == rows
                    &&& crate::queries::upsert_all(objects_v(old(objects)@), rows) == Ok::<_, ()>(
                        objects_v(final(objects)@),
                    )
                    &&& wf_objects(objects_v(final(objects)@))
                },
                Err(e) => {
                    &&& crate::queries::upsert_all(objects_v(old(objects)@), rows) is Err
                    &&& e@ == ErrV::DatabaseError(Seq::empty())
                    &&& final(objects)@ == old(objects)@
                },
            }
        }),
{
    let ghost gpre = preps_v(pre@);
    proof {
        assert(gpre.skip(0) =~= gpre);
        assert(fresh_ids@.skip(0) =~= fresh_ids@);
    }
    let planned = plan_rows_exec(objects, pre, 0, now, fresh_ids, 0);
    let rows = planned.0;
    match crate::queries::insert_or_update_multiple_objects(objects, &rows) {
        Ok(()) => Ok(rows),
        Err(e) => Err(e),
    }
}

/// Resolves the desired edges of the batch against the upserted
/// table, as `rels_all` fixes it.
#[verifier::loop_isolation(false)]
fn rels_targets_exec(
    t2: &Vec<Object>,
    oid: u128,
    ts: &Vec<String>,
    k: usize,
    fkid: u128,
) -> (r: Result<Vec<Relation>, DawnStoreError>)
    requires
        wf_objects(objects_v(t2@)),
        0 <= k <= ts@.len(),
    ensures
        match r {
            Ok(rels) => rels_for_targets(
                objects_v(t2@),
                oid,
                crate::text::views(ts@).skip(k as int),
                fkid,
            ) == Ok::<_, ErrV>(rels@),
            Err(e) => rels_for_targets(
                objects_v(t2@),
                oid,
                crate::text::views(ts@).skip(k as int),
                fkid,
            ) == Err::<Seq<Relation>, _>(e@),
        },
    decreases ts@.len() - k,
{
    let ghost gt2 = objects_v(t2@);
    let ghost gts = crate::text::views(ts@);
    if k == ts.len() {
        let empty: Vec<Relation> = Vec::new();
        proof {
            assert(gts.skip(k as int) =~= Seq::<Seq<char>>::empty());
        }
        return Ok(empty);
    }
    proof {
        assert(gts.skip(k as int).first() == gts[k as int]);
        assert(gts[k as int] == ts@[k as int]@);
        assert(gts.skip(k as int).drop_first() =~= gts.skip(k + 1));
    }
    let target = match find_row_by_sid(t2, &ts[k]) {
        Option::Some(row) => row.id,
        Option::None => {
            return Err(DawnStoreError::ForeignKeyNotFound(ts[k].clone()));
        },
    };
    let rel = Relation { object_id: oid, foreign_object_id: target, foreign_key_id: fkid };
    match rels_targets_exec(t2, oid, ts, k + 1, fkid) {
        Err(e) => Err(e),
        Ok(rest) => {
            let ghost grest = rest@;
            let mut rest = rest;
            rest.insert(0, rel);
            proof {
                assert(rest@ =~= seq![rel] + grest);
            }
            Ok(rest)
        },
    }
}

#[verifier::loop_isolation(false)]
fn rels_obj_exec(t2: &Vec<Object>, oid: u128, p: &Prepared, j: usize) -> (r: Result<
    Vec<Relation>,
    DawnStoreError,
>)
    requires
        wf_objects(objects_v(t2@)),
        0 <= j <= p.fks@.len(),
    ensures
        match r {
            Ok(rels) => rels_for_obj(objects_v(t2@), oid, p@.fks.skip(j as int)) == Ok::<_, ErrV>(
                rels@,
            ),
            Err(e) => rels_for_obj(objects_v(t2@), oid, p@.fks.skip(j as int)) == Err::<
                Seq<Relation>,
                _,
            >(e@),
        },
    decreases p.fks@.len() - j,
{
    let ghost gfks = p@.fks;
    if j == p.fks.len() {
        let empty: Vec<Relation> = Vec::new();
        proof {
            assert(gfks.skip(j as int) =~= Seq::<(Seq<Seq<char>>, u128)>::empty());
        }
        return Ok(empty);
    }
    proof {
        assert(gfks.skip(j as int).first() == gfks[j as int]);
        assert(gfks[j as int] == (crate::text::views(p.fks@[j as int].0@), p.fks@[j as int].1));
        assert(gfks.skip(j as int).drop_first() =~= gfks.skip(j + 1));
    }
    proof {
        assert(crate::text::views(p.fks@[j as int].0@).skip(0) =~= crate::text::views(
            p.fks@[j as int].0@,
        ));
    }
    let one = match rels_targets_exec(t2, oid, &p.fks[j].0, 0, p.fks[j].1) {
        Ok(rels) => rels,
        Err(e) => {
            return Err(e);
        },
    };
    match rels_obj_exec(t2, oid, p, j + 1) {
        Err(e) => Err(e),
        Ok(rest) => {
            let ghost gone = one@;
            let ghost grest = rest@;
            let mut one = one;
            let mut rest = rest;
            one.append(&mut rest);
            proof {
                assert(one@ =~= gone + grest);
            }
            Ok(one)
        },
    }
}

#[verifier::loop_isolation(false)]
fn rels_all_exec(t2: &Vec<Object>, rows: &Vec<Object>, pre: &Vec<Prepared>, i: usize) -> (r: Result<
    Vec<Relation>,
    DawnStoreError,
>)
    requires
        wf_objects(objects_v(t2@)),
        rows@.len() == pre@.len(),
        0 <= i <= pre@.len(),
    ensures
        match r {
            Ok(rels) => rels_all(
                objects_v(t2@),
                objects_v(rows@).skip(i as int),
                preps_v(pre@).skip(i as int),
            ) == Ok::<_, ErrV>(rels@),
            Err(e) => rels_all(
                objects_v(t2@),
                objects_v(rows@).skip(i as int),
                preps_v(pre@).skip(i as int),
            ) == Err::<Seq<Relation>, _>(e@),
        },
    decreases pre@.len() - i,
{
    let ghost grows = objects_v(rows@);
    let ghost gpre = preps_v(pre@);
    if i == pre.len() {
        let empty: Vec<Relation> = Vec::new();
        proof {
            assert(gpre.skip(i as int) =~= Seq::<PreparedV>::empty());
        }
        return Ok(empty);
    }
    proof {
        assert(gpre.skip(i as int).first() == gpre[i as int]);
        assert(gpre[i as int] == pre@[i as int]@);
        assert(gpre.skip(i as int).drop_first() =~= gpre.skip(i + 1));
        assert(grows.skip(i as int).first() == grows[i as int]);
        assert(grows[i as int] == rows@[i as int]@);
        assert(grows.skip(i as int).drop_first() =~= grows.skip(i + 1));
    }
    proof {
        assert(pre@[i as int]@.fks.skip(0) =~= pre@[i as int]@.fks);
    }
    let one = match rels_obj_exec(t2, rows[i].id, &pre[i], 0) {
        Ok(rels) => rels,
        Err(e) => {
            return Err(e);
        },
    };
    match rels_all_exec(t2, rows, pre, i + 1) {
        Err(e) => Err(e),
        Ok(rest) => {
            let ghost gone = one@;
            let ghost grest = rest@;
            let mut one = one;
            let mut rest = rest;
            one.append(&mut rest);
            proof {
                assert(one@ =~= gone + grest);
            }
            Ok(one)
        },
    }
}

/// The batch plans exactly one row per prepared object.
pub proof fn lemma_plan_rows_len(t: Seq<DbObjectV>, pre: Seq<PreparedV>, now: i64, ids: Seq<u128>)
    ensures
        plan_rows(t, pre, now, ids).0.len() == pre.len(),
    decreases pre.len(),
{
    if pre.len() > 0 {
        if crate::queries::has_obj_sid(t, pre.first().string_id) {
            lemma_plan_rows_len(t, pre.drop_first(), now, ids);
        } else {
            lemma_plan_rows_len(t, pre.drop_first(), now, ids.drop_first());
        }
    }
}

/// Every edge kept by a set-based delete stood in the table.
pub proof fn lemma_remove_rels_elems(t: Seq<Relation>, dels: Seq<Relation>)
    ensures
        forall|x: Relation| #[trigger] crate::queries::remove_rels(t, dels).contains(x)
            ==> t.contains(x),
    decreases t.len(),
{
    if t.len() > 0 {
        lemma_remove_rels_elems(t.drop_last(), dels);
        assert forall|x: Relation| #[trigger] crate::queries::remove_rels(t, dels).contains(x)
            implies t.contains(x) by {
            let r = crate::queries::remove_rels(t, dels);
            let rp = crate::queries::remove_rels(t.drop_last(), dels);
            let i = choose|i: int| 0 <= i < r.len() && r[i] == x;
            if i < rp.len() {
                assert(rp.contains(x));
                assert(t.drop_last().contains(x));
                let j = choose|j: int| 0 <= j < t.drop_last().len() && t.drop_last()[j] == x;
                assert(t[j] == x);
            } else {
                assert(x == t.last());
                assert(t[t.len() - 1] == x);
            }
        }
    }
}

/// A set-based delete keeps the relation table well formed.
pub proof fn lemma_remove_rels_wf(t: Seq<Relation>, dels: Seq<Relation>)
    requires
        wf_relations(t),
    ensures
        wf_relations(crate::queries::remove_rels(t, dels)),
    decreases t.len(),
{
    if t.len() > 0 {
        assert(forall|i: int|
            0 <= i < t.drop_last().len() ==> #[trigger] t.drop_last()[i] == t[i]);
        assert(wf_relations(t.drop_last()));
        lemma_remove_rels_wf(t.drop_last(), dels);
        lemma_remove_rels_elems(t.drop_last(), dels);
        let rp = crate::queries::remove_rels(t.drop_last(), dels);
        let r = crate::queries::remove_rels(t, dels);
        if !dels.contains(t.last()) {
            assert(r =~= rp.push(t.last()));
            assert forall|a: int, b: int| 0 <= a < b < r.len() implies (#[trigger] r[a]) != (
            #[trigger] r[b]) by {
                if b < rp.len() {
                    assert(rp[a] != rp[b]);
                } else {
                    assert(r[b] == t.last());
                    assert(rp.contains(rp[a]));
                    assert(t.drop_last().contains(rp[a]));
                    let j = choose|j: int|
                        0 <= j < t.drop_last().len() && t.drop_last()[j] == rp[a];
                    assert(t[j] == rp[a]);
                    assert(t[j] != t[t.len() - 1]);
                }
            }
        } else {
            assert(r =~= rp);
        }
    }
}

impl Store {
    /// Applies a raw document at a fixed instant with fixed fresh
    /// identifiers: normalize, validate every object, check that every
    /// reference has a target, upsert the batch in one step, and
    /// reconcile the relations of the applied objects. On any error
    /// the object and relation tables are left untouched.
    pub fn apply_at(&mut self, data: &crate::json::JsonVal, now: i64, fresh_ids: &Vec<u128>) -> (r:
        Result<Vec<crate::models::ReturnObject>, DawnStoreError>)
        requires
            wf_store(*old(self)),
            crate::apply_impl::norm_doc(data@) matches Ok(objs) ==> fresh_ids@.len() >= objs.len(),
        ensures
            wf_store(*final(self)),
            final(self)@.schemas == old(self)@.schemas,
            final(self)@.constraints == old(self)@.constraints,
            ({
                let eff = apply_spec(old(self)@, data@, now, fresh_ids@);
                &&& final(self)@.objects == eff.objects
                &&& final(self)@.relations == eff.relations
                &&& match r {
                    Ok(rets) => eff.result == Ok::<_, ErrV>(rets_v(rets@)),
                    Err(e) => eff.result == Err::<Seq<crate::models::ReturnObjectV>, _>(e@),
                }
            }),
    {
        let ghost s0 = self@;
        let objs = match crate::apply_impl::build_base_objects_from_raw_value(data) {
            Ok(o) => o,
            Err(e) => {
                return Err(e);
            },
        };
        let ghost gobjs = crate::apply_impl::objs_v(objs@);
        let pre = match self.validate_list(objs) {
            Ok(p) => p,
            Err(e) => {
                return Err(e);
            },
        };
        let ghost gpre = preps_v(pre@);
        proof {
            lemma_validate_all_len(s0.schemas, s0.constraints, gobjs);
        }
        // the identifiers of the whole batch
        let mut sids: Vec<String> = Vec::new();
        let mut i: usize = 0;
        while i < pre.len()
            invariant
                0 <= i <= pre.len(),
                gpre == preps_v(pre@),
                gpre.len() == pre@.len(),
                sids@.len() == i,
                forall|j: int| 0 <= j < i ==> #[trigger] sids@[j]@ == gpre[j].string_id,
            decreases pre.len() - i,
        {
            proof {
                assert(gpre[i as int] == pre@[i as int]@);
            }
            let s = pre[i].string_id.clone();
            sids.push(s);
            i = i + 1;
        }
        proof {
            assert(crate::text::views(sids@) =~= batch_sids(gpre));
        }
        match check_targets_exec(&self.objects, &sids, &pre) {
            Ok(()) => {},
            Err(e) => {
                return Err(e);
            },
        }
        // plan the rows and upsert them: the transactional write
        let mut work = crate::queries::copy_objects(&self.objects);
        let rows = match maintain_objects(&mut work, &pre, now, fresh_ids) {
            Ok(rows) => rows,
            Err(e) => {
                return Err(e);
            },
        };
        let ghost grows = objects_v(rows@);
        proof {
            lemma_plan_rows_len(s0.objects, gpre, now, fresh_ids@);
        }
        // resolve the desired edges against the upserted table
        proof {
            assert(grows.skip(0) =~= grows);
            assert(gpre.skip(0) =~= gpre);
        }
        let desired = match rels_all_exec(&work, &rows, &pre, 0) {
            Ok(d) => d,
            Err(e) => {
                return Err(e);
            },
        };
        let ghost gdesired = desired@;
        // the edges currently stored for the applied objects
        let mut applied: Vec<u128> = Vec::new();
        let mut i: usize = 0;
        while i < rows.len()
            invariant
                0 <= i <= rows.len(),
                grows == objects_v(rows@),
                grows.len() == rows@.len(),
                applied@.len() == i,
                forall|j: int| 0 <= j < i ==> #[trigger] applied@[j] == grows[j].id,
            decreases rows.len() - i,
        {
            proof {
                assert(grows[i as int] == rows@[i as int]@);
            }
            applied.push(rows[i].id);
            i = i + 1;
        }
        proof {
            assert(applied@ =~= grows.map_values(|r: DbObjectV| r.id));
        }
        let existing = crate::queries::get_relations_of_objects(&self.relations, &applied);
        let ghost gexisting = existing@;
        // the stale edges, as three parallel columns
        let mut stale_o: Vec<u128> = Vec::new();
        let mut stale_f: Vec<u128> = Vec::new();
        let mut stale_k: Vec<u128> = Vec::new();
        let ghost gstale = crate::queries::remove_rels(gexisting, gdesired);
        let mut i: usize = 0;
        proof {
            assert(gexisting.take(0) =~= Seq::<Relation>::empty());
            assert(crate::queries::remove_rels(gexisting.take(0), gdesired) =~= Seq::<
                Relation,
            >::empty());
        }
        let ghost gpart = crate::queries::remove_rels(gexisting.take(0), gdesired);
        let mut ghost_part: Ghost<Seq<Relation>> = Ghost(gpart);
        while i < existing.len()
            invariant
                0 <= i <= existing.len(),
                gexisting == existing@,
                gdesired == desired@,
                ghost_part@ == crate::queries::remove_rels(gexisting.take(i as int), gdesired),
                stale_o@.len() == ghost_part@.len(),
                stale_f@.len() == ghost_part@.len(),
                stale_k@.len() == ghost_part@.len(),
                forall|j: int|
                    0 <= j < ghost_part@.len() ==> #[trigger] ghost_part@[j] == (Relation {
                        object_id: stale_o@[j],
                        foreign_object_id: stale_f@[j],
                        foreign_key_id: stale_k@[j],
                    }),
            decreases existing.len() - i,
        {
            proof {
                assert(gexisting.take(i + 1).drop_last() =~= gexisting.take(i as int));
                assert(gexisting.take(i + 1).last() == gexisting[i as int]);
            }
            let e = existing[i];
            if !crate::queries::contains_rel(&desired, e) {
                stale_o.push(e.object_id);
                stale_f.push(e.foreign_object_id);
                stale_k.push(e.foreign_key_id);
                ghost_part = Ghost(ghost_part@.push(e));
            }
            proof {
                assert(ghost_part@ =~= crate::queries::remove_rels(
                    gexisting.take(i + 1),
                    gdesired,
                ));
            }
            i = i + 1;
        }
        proof {
            assert(gexisting.take(existing@.len() as int) =~= gexisting);
            assert(crate::queries::zip3(stale_o@, stale_f@, stale_k@) =~= ghost_part@);
        }
        // commit: delete stale edges, add missing ones, install the rows
        let ghost rels0 = self.relations@;
        let rel_count = self.relations.len();
        proof {
            assert(self.relations@.len() == rel_count);
            assert(self.relations@.len() <= u64::MAX);
        }
        let _removed = crate::queries::delete_multiple_relations(
            &mut self.relations,
            &stale_o,
            &stale_f,
            &stale_k,
        );
        proof {
            lemma_remove_rels_wf(rels0, crate::queries::zip3(stale_o@, stale_f@, stale_k@));
        }
        crate::queries::insert_multiple_relation(&mut self.relations, &desired);
        self.objects = work;
        // the response rows, in batch order
        let ghost grows2 = objects_v(rows@);
        let mut rows = rows;
        let total_rows = rows.len();
        let mut rets: Vec<crate::models::ReturnObject> = Vec::new();
        let mut i: usize = 0;
        proof {
            assert(rets_v(rets@) =~= grows2.take(0).map_values(|r: DbObjectV| ret_of(r)));
        }
        while i < rows.len() || rows.len() > 0
            invariant
                0 <= i <= total_rows,
                total_rows == grows2.len(),
                i + rows@.len() == grows2.len(),
                objects_v(rows@) =~= grows2.skip(i as int),
                rets_v(rets@) == grows2.take(i as int).map_values(|r: DbObjectV| ret_of(r)),
            decreases rows@.len(),
        {
            let ghost before_v = objects_v(rows@);
            let row = rows.remove(0);
            proof {
                assert(before_v =~= grows2.skip(i as int));
                assert(row@ == before_v.first());
                assert(row@ == grows2[i as int]);
                assert(objects_v(rows@) =~= before_v.drop_first());
                assert(objects_v(rows@) =~= grows2.skip(i + 1));
            }
            let ghost rets0 = rets_v(rets@);
            let ret = crate::models::ReturnObject {
                id: row.id,
                namespace: row.namespace,
                api_version: row.api_version,
                kind: row.kind,
                name: row.name,
                created_at: row.created_at,
                updated_at: row.updated_at,
                annotations: Option::Some(row.annotations),
                labels: Option::Some(row.labels),
                owners: Option::Some(Vec::new()),
                spec: row.spec,
            };
            proof {
                assert(ret@ == ret_of(grows2[i as int]));
            }
            rets.push(ret);
            proof {
                assert(rets_v(rets@) =~= rets0.push(ret_of(grows2[i as int])));
                assert(rets_v(rets@) =~= grows2.take(i + 1).map_values(
                    |r: DbObjectV| ret_of(r),
                ));
            }
            i = i + 1;
        }
        proof {
            assert(grows2.take(grows2.len() as int) =~= grows2);
        }
        Ok(rets)
    }

    /// Applies a raw document: the instant is read from the clock and
    /// fresh identifiers are drawn, then the apply runs as `apply_at`.
    pub fn apply_raw(&mut self, data: &crate::json::JsonVal) -> (r: Result<
        Vec<crate::models::ReturnObject>,
        DawnStoreError,
    >)
        requires
            wf_store(*old(self)),
        ensures
            wf_store(*final(self)),
            final(self)@.schemas == old(self)@.schemas,
            final(self)@.constraints == old(self)@.constraints,
            exists|now: i64, ids: Seq<u128>|
                {
                    let eff = #[trigger] apply_spec(old(self)@, data@, now, ids);
                    &&& final(self)@.objects == eff.objects
                    &&& final(self)@.relations == eff.relations
                    &&& match r {
                        Ok(rets) => eff.result == Ok::<_, ErrV>(rets_v(rets@)),
                        Err(e) => eff.result == Err::<Seq<crate::models::ReturnObjectV>, _>(e@),
                    }
                },
    {
        let count = match crate::apply_impl::build_base_objects_from_raw_value(data) {
            Ok(objs) => objs.len(),
            Err(_) => 0,
        };
        let mut ids: Vec<u128> = Vec::new();
        let mut i: usize = 0;
        while i < count
            invariant
                0 <= i <= count,
                ids@.len() == i,
            decreases count - i,
        {
            let id = crate::outside::fresh_uuid();
            ids.push(id);
            i = i + 1;
        }
        let now = crate::outside::now_micros();
        let ghost gids = ids@;
        let r = self.apply_at(data, now, &ids);
        proof {
            let eff = apply_spec(old(self)@, data@, now, gids);
            assert(self@.objects == eff.objects);
        }
        r
    }
}

/// A delete request's namespace: naming the default namespace is the
/// same as naming none.
pub open spec fn del_ns(ns: Option<Seq<char>>) -> Option<Seq<char>> {
    match ns {
        Option::Some(n) => if n == "default"@ {
            Option::None
        } else {
            Option::Some(n)
        },
        Option::None => Option::None,
    }
}

/// A registered schema projected for the caller.
pub open spec fn rd_of(s: ObjectSchemaV) -> crate::models::ResourceDefinitionV {
    crate::models::ResourceDefinitionV {
        api_version: s.api_version,
        kind: s.kind,
        aliases: s.aliases,
        json_schema: s.json_schema,
    }
}

pub open spec fn rdefs_v(s: Seq<crate::models::ResourceDefinition>) -> Seq<
    crate::models::ResourceDefinitionV,
> {
    s.map_values(|r: crate::models::ResourceDefinition| r@)
}

impl Store {
    /// Removes the objects selected by the request: name and kind
    /// always, the namespace only when one other than `"default"` was
    /// supplied. Relations are not touched: an edge whose target is
    /// deleted stays behind.
    pub fn delete(&mut self, delete: &crate::models::DeleteObject) -> (r: Result<
        (),
        DawnStoreError,
    >)
        requires
            wf_store(*old(self)),
        ensures
            wf_store(*final(self)),
            final(self)@.schemas == old(self)@.schemas,
            final(self)@.constraints == old(self)@.constraints,
            final(self)@.relations == old(self)@.relations,
            final(self)@.objects == crate::queries::remove_matching(
                old(self)@.objects,
                del_ns(crate::models::opt_sv(delete.namespace)),
                delete.name@,
                delete.kind@,
            ),
            r is Ok,
    {
        let ns: Option<&String> = match &delete.namespace {
            Option::Some(x) => {
                if *x == String::from_str("default") {
                    Option::None
                } else {
                    Option::Some(x)
                }
            },
            Option::None => Option::None,
        };
        let ghost objs0 = self@.objects;
        crate::queries::delete_object(&mut self.objects, ns, &delete.name, &delete.kind);
        proof {
            crate::queries::lemma_remove_matching_wf(
                objs0,
                del_ns(crate::models::opt_sv(delete.namespace)),
                delete.name@,
                delete.kind@,
            );
        }
        Ok(())
    }

    /// Every registered schema, projected for the caller, in table
    /// order.
    pub fn get_resource_definition(
        &self,
        _filter: &crate::models::GetResourceDefinitionFilter,
    ) -> (r: Result<Vec<crate::models::ResourceDefinition>, DawnStoreError>)
        ensures
            r matches Ok(defs) && rdefs_v(defs@) == self@.schemas.map_values(
                |s: ObjectSchemaV| rd_of(s),
            ),
    {
        let ghost gs = self@.schemas;
        let mut out: Vec<crate::models::ResourceDefinition> = Vec::new();
        let mut i: usize = 0;
        while i < self.schemas.len()
            invariant
                0 <= i <= self.schemas.len(),
                gs == self@.schemas,
                gs.len() == self.schemas@.len(),
                out@.len() == i,
                forall|j: int| 0 <= j < i ==> #[trigger] out@[j]@ == rd_of(gs[j]),
            decreases self.schemas.len() - i,
        {
            proof {
                assert(gs[i as int] == self.schemas@[i as int]@);
            }
            let row = &self.schemas[i];
            let def = crate::models::ResourceDefinition {
                api_version: row.api_version.clone(),
                kind: row.kind.clone(),
                aliases: crate::models::clone_strings(&row.aliases),
                json_schema: row.json_schema.clone(),
            };
            out.push(def);
            i = i + 1;
        }
        proof {
            assert(rdefs_v(out@) =~= gs.map_values(|s: ObjectSchemaV| rd_of(s)));
        }
        Ok(out)
    }
}

// ---------------------------------------------------------------------
// The read surface: filtering, ordering and paging.
// ---------------------------------------------------------------------

/// Character sequences compared by code point, shorter prefixes first.
pub open spec fn lex_le(a: Seq<char>, b: Seq<char>) -> bool
    decreases a.len(),
{
    if a.len() == 0 {
        true
    } else if b.len() == 0 {
        false
    } else if (a.first() as u32) < (b.first() as u32) {
        true
    } else if (a.first() as u32) > (b.first() as u32) {
        false
    } else {
        lex_le(a.drop_first(), b.drop_first())
    }
}

/// Rows ordered by kind, then by name.
pub open spec fn row_le(x: DbObjectV, y: DbObjectV) -> bool {
    if x.kind == y.kind {
        lex_le(x.name, y.name)
    } else {
        lex_le(x.kind, y.kind) && !lex_le(y.kind, x.kind)
    }
}

/// Whether a row passes the filter: each given field must match, and
/// when identifiers are listed the row's must be among them.
pub open spec fn fmatch(r: DbObjectV, f: crate::models::GetObjectsFilterV) -> bool {
    &&& match f.namespace {
        Option::Some(ns) => r.namespace == ns,
        Option::None => true,
    }
    &&& match f.kind {
        Option::Some(k) => r.kind == k,
        Option::None => true,
    }
    &&& match f.name {
        Option::Some(n) => r.name == n,
        Option::None => true,
    }
    &&& match f.ids {
        Option::Some(ids) => ids.contains(r.id),
        Option::None => true,
    }
}

/// The rows passing the filter, in table order.
pub open spec fn filter_objs(t: Seq<DbObjectV>, f: crate::models::GetObjectsFilterV) -> Seq<
    DbObjectV,
>
    decreases t.len(),
{
    if t.len() == 0 {
        Seq::empty()
    } else {
        filter_objs(t.drop_last(), f) + (if fmatch(t.last(), f) {
            seq![t.last()]
        } else {
            Seq::empty()
        })
    }
}

/// A row placed into an already ordered sequence, after every row it
/// does not precede.
pub open spec fn insert_sorted(x: DbObjectV, s: Seq<DbObjectV>) -> Seq<DbObjectV>
    decreases s.len(),
{
    if s.len() == 0 {
        seq![x]
    } else if row_le(s.last(), x) {
        s.push(x)
    } else {
        insert_sorted(x, s.drop_last()).push(s.last())
    }
}

/// The rows ordered by kind, then name.
pub open spec fn sort_rows(s: Seq<DbObjectV>) -> Seq<DbObjectV>
    decreases s.len(),
{
    if s.len() == 0 {
        Seq::empty()
    } else {
        insert_sorted(s.last(), sort_rows(s.drop_last()))
    }
}

/// The page of the ordered selection: the page size is clamped to 250;
/// the offset counts in requested page sizes, with 250 standing in
/// when only a page was given.
pub open spec fn page_of(s: Seq<DbObjectV>, page: Option<usize>, page_size: Option<usize>) -> Seq<
    DbObjectV,
> {
    let offset = match page {
        Option::Some(p) => {
            let size = match page_size {
                Option::Some(ps) => ps as int,
                Option::None => 250,
            };
            p * size
        },
        Option::None => 0,
    };
    let dropped = if offset >= s.len() {
        Seq::<DbObjectV>::empty()
    } else {
        s.skip(offset)
    };
    match page_size {
        Option::Some(ps) => {
            let limit: int = if ps > 250 {
                250
            } else {
                ps as int
            };
            if limit >= dropped.len() {
                dropped
            } else {
                dropped.take(limit)
            }
        },
        Option::None => dropped,
    }
}

/// What `get` returns for a filter over a table.
pub open spec fn get_spec(t: Seq<DbObjectV>, f: crate::models::GetObjectsFilterV) -> Seq<
    crate::models::ReturnObjectV,
> {
    page_of(sort_rows(filter_objs(t, f)), f.page, f.page_size).map_values(
        |r: DbObjectV| ret_of(r),
    )
}

/// Compares two character sequences, as `lex_le` fixes it.
#[verifier::loop_isolation(false)]
fn lex_le_exec(a: &String, b: &String) -> (r: bool)
    ensures
        r == lex_le(a@, b@),
{
    let an = a.as_str().unicode_len();
    let bn = b.as_str().unicode_len();
    let mut i: usize = 0;
    proof {
        assert(a@.skip(0) =~= a@);
        assert(b@.skip(0) =~= b@);
    }
    while i < an && i < bn
        invariant
            0 <= i,
            i <= an,
            i <= bn,
            an == a@.len(),
            bn == b@.len(),
            lex_le(a@, b@) == lex_le(a@.skip(i as int), b@.skip(i as int)),
        decreases an - i,
    {
        let ca = a.as_str().get_char(i);
        let cb = b.as_str().get_char(i);
        proof {
            assert(a@.skip(i as int).first() == a@[i as int]);
            assert(b@.skip(i as int).first() == b@[i as int]);
            assert(a@.skip(i as int).drop_first() =~= a@.skip(i + 1));
            assert(b@.skip(i as int).drop_first() =~= b@.skip(i + 1));
        }
        if (ca as u32) < (cb as u32) {
            return true;
        }
        if (ca as u32) > (cb as u32) {
            return false;
        }
        i = i + 1;
    }
    proof {
        if i >= an {
            assert(a@.skip(i as int).len() == 0);
        } else {
            assert(b@.skip(i as int).len() == 0);
            assert(a@.skip(i as int).len() > 0);
        }
    }
    an <= bn
}

/// Compares two rows, as `row_le` fixes it.
fn row_le_exec(x: &Object, y: &Object) -> (r: bool)
    ensures
        r == row_le(x@, y@),
{
    if x.kind == y.kind {
        lex_le_exec(&x.name, &y.name)
    } else {
        lex_le_exec(&x.kind, &y.kind) && !lex_le_exec(&y.kind, &x.kind)
    }
}

/// Places a row into an ordered vector, as `insert_sorted` fixes it.
#[verifier::loop_isolation(false)]
fn insert_sorted_exec(x: Object, s: Vec<Object>) -> (r: Vec<Object>)
    ensures
        objects_v(r@) == insert_sorted(x@, objects_v(s@)),
    decreases s@.len(),
{
    let ghost gs = objects_v(s@);
    let mut s = s;
    if s.len() == 0 {
        s.push(x);
        proof {
            assert(objects_v(s@) =~= seq![x@]);
        }
        return s;
    }
    proof {
        assert(gs.last() == s@[s@.len() - 1]@);
    }
    let le = row_le_exec(&s[s.len() - 1], &x);
    if le {
        let ghost pre = objects_v(s@);
        s.push(x);
        proof {
            assert(objects_v(s@) =~= pre.push(x@));
        }
        s
    } else {
        let last = match s.pop() {
            Option::Some(l) => l,
            Option::None => {
                proof {
                    assert(false);
                }
                return s;
            },
        };
        proof {
            assert(objects_v(s@) =~= gs.drop_last());
        }
        let ghost glast = last@;
        let mut r = insert_sorted_exec(x, s);
        let ghost gr = objects_v(r@);
        r.push(last);
        proof {
            assert(objects_v(r@) =~= gr.push(glast));
        }
        r
    }
}

impl Store {
    /// The stored objects passing the filter, ordered by kind then
    /// name, paged and clamped, projected for the caller. The
    /// hydration flags of the filter are accepted and not consulted.
    pub fn get(&self, filter: &crate::models::GetObjectsFilter) -> (r: Result<
        Vec<crate::models::ReturnObject>,
        DawnStoreError,
    >)
        ensures
            r matches Ok(rets) && rets_v(rets@) == get_spec(self@.objects, filter@),
    {
        let ghost gt = self@.objects;
        let ghost gf = filter@;
        // select
        let mut matching: Vec<Object> = Vec::new();
        let mut i: usize = 0;
        proof {
            assert(gt.take(0) =~= Seq::<DbObjectV>::empty());
            assert(objects_v(matching@) =~= filter_objs(gt.take(0), gf));
        }
        while i < self.objects.len()
            invariant
                0 <= i <= self.objects.len(),
                gt == self@.objects,
                gf == filter@,
                gt.len() == self.objects@.len(),
                objects_v(matching@) == filter_objs(gt.take(i as int), gf),
            decreases self.objects.len() - i,
        {
            proof {
                assert(gt.take(i + 1).drop_last() =~= gt.take(i as int));
                assert(gt.take(i + 1).last() == gt[i as int]);
                assert(gt[i as int] == self.objects@[i as int]@);
            }
            let row = &self.objects[i];
            let mut keep = true;
            if let Option::Some(ns) = &filter.namespace {
                if !(row.namespace == *ns) {
                    keep = false;
                }
            }
            if let Option::Some(k) = &filter.kind {
                if !(row.kind == *k) {
                    keep = false;
                }
            }
            if let Option::Some(n) = &filter.name {
                if !(row.name == *n) {
                    keep = false;
                }
            }
            if let Option::Some(ids) = &filter.ids {
                if !crate::queries::contains_u128(ids, row.id) {
                    keep = false;
                }
            }
            let ghost m0 = objects_v(matching@);
            if keep {
                let copy = row.duplicate();
                matching.push(copy);
                proof {
                    assert(objects_v(matching@) =~= m0.push(gt[i as int]));
                }
            }
            proof {
                assert(objects_v(matching@) =~= filter_objs(gt.take(i + 1), gf));
            }
            i = i + 1;
        }
        proof {
            assert(gt.take(self.objects@.len() as int) =~= gt);
        }
        // order
        let ghost gmatching = objects_v(matching@);
        let mut matching = matching;
        let mut sorted: Vec<Object> = Vec::new();
        proof {
            assert(objects_v(sorted@) =~= sort_rows(gmatching.take(0)));
        }
        let n = matching.len();
        let mut i: usize = 0;
        while i < n
            invariant
                0 <= i <= n,
                i + matching@.len() == n,
                n == gmatching.len(),
                objects_v(matching@) =~= gmatching.skip(i as int),
                objects_v(sorted@) == sort_rows(gmatching.take(i as int)),
            decreases n - i,
        {
            let ghost before_m = objects_v(matching@);
            let x = matching.remove(0);
            proof {
                assert(before_m =~= gmatching.skip(i as int));
                assert(x@ == before_m.first());
                assert(x@ == gmatching[i as int]);
                assert(objects_v(matching@) =~= before_m.drop_first());
                assert(objects_v(matching@) =~= gmatching.skip(i + 1));
                assert(gmatching.take(i + 1).drop_last() =~= gmatching.take(i as int));
                assert(gmatching.take(i + 1).last() == gmatching[i as int]);
            }
            sorted = insert_sorted_exec(x, sorted);
            i = i + 1;
        }
        proof {
            assert(gmatching.take(gmatching.len() as int) =~= gmatching);
        }
        // page
        let ghost gsorted = objects_v(sorted@);
        let total = sorted.len();
        let ghost goffset: int = match filter@.page {
            Option::Some(p) => p * (match filter@.page_size {
                Option::Some(ps) => ps as int,
                Option::None => 250int,
            }),
            Option::None => 0int,
        };
        let start: usize = match filter.page {
            Option::Some(p) => {
                let size: usize = match filter.page_size {
                    Option::Some(ps) => ps,
                    Option::None => 250,
                };
                proof {
                    assert((p as int) * (size as int) <= 0xffffffffffffffffint
                        * 0xffffffffffffffffint) by (nonlinear_arith)
                        requires
                            p as int <= 0xffffffffffffffffint,
                            size as int <= 0xffffffffffffffffint,
                            p >= 0,
                            size >= 0,
                    ;
                }
                let product: u128 = (p as u128) * (size as u128);
                proof {
                    assert(product == goffset);
                }
                if product >= total as u128 {
                    total
                } else {
                    product as usize
                }
            },
            Option::None => 0,
        };
        proof {
            assert(goffset >= 0);
            assert(if goffset >= total as int {
                start == total
            } else {
                start as int == goffset
            });
        }
        let limit: usize = match filter.page_size {
            Option::Some(ps) => {
                if ps > 250 {
                    250
                } else {
                    ps
                }
            },
            Option::None => total,
        };
        let mut out: Vec<crate::models::ReturnObject> = Vec::new();
        let ghost gpage = page_of(gsorted, filter@.page, filter@.page_size);
        let mut i: usize = start;
        let mut taken: usize = 0;
        while i < total && taken < limit
            invariant
                start <= i <= total,
                total == gsorted.len(),
                gsorted == objects_v(sorted@),
                gsorted.len() == sorted@.len(),
                taken == i - start,
                taken <= limit,
                out@.len() == taken,
                gpage == page_of(gsorted, filter@.page, filter@.page_size),
                goffset >= 0,
                goffset == (match filter@.page {
                    Option::Some(p) => p * (match filter@.page_size {
                        Option::Some(ps) => ps as int,
                        Option::None => 250int,
                    }),
                    Option::None => 0int,
                }),
                (if goffset >= total as int {
                    start == total
                } else {
                    start as int == goffset
                }),
                forall|j: int| 0 <= j < taken ==> #[trigger] out@[j]@ == ret_of(gsorted[start + j]),
                match filter@.page_size {
                    Option::Some(ps) => limit == (if ps > 250 {
                        250int
                    } else {
                        ps as int
                    }),
                    Option::None => limit == total,
                },
            decreases total - i,
        {
            proof {
                assert(gsorted[i as int] == sorted@[i as int]@);
                // the page still has room for this row
                assert(start < total);
                assert(goffset < total as int && start as int == goffset);
                let dropped = gsorted.skip(goffset);
                assert(dropped.len() == total - start);
                match filter@.page_size {
                    Option::Some(ps) => {
                        assert(gpage.len() == (if limit as int >= dropped.len() {
                            dropped.len() as int
                        } else {
                            limit as int
                        }));
                    },
                    Option::None => {
                        assert(gpage.len() == dropped.len());
                    },
                }
                assert(taken < gpage.len());
            }
            let row = &sorted[i];
            let ret = crate::models::ReturnObject {
                id: row.id,
                namespace: row.namespace.clone(),
                api_version: row.api_version.clone(),
                kind: row.kind.clone(),
                name: row.name.clone(),
                created_at: row.created_at,
                updated_at: row.updated_at,
                annotations: Option::Some(crate::models::clone_smap(&row.annotations)),
                labels: Option::Some(crate::models::clone_smap(&row.labels)),
                owners: Option::Some(Vec::new()),
                spec: crate::json::deep_copy(&row.spec),
            };
            proof {
                assert(ret@ == ret_of(gsorted[i as int]));
            }
            out.push(ret);
            i = i + 1;
            taken = taken + 1;
        }
        proof {
            // the loop stopped exactly at the page boundary
            if goffset >= total as int {
                assert(start == total);
                assert(taken == 0);
                assert(gpage.len() == 0);
            } else {
                let dropped = gsorted.skip(goffset);
                assert(dropped.len() == total - start);
                if i == total {
                    match filter@.page_size {
                        Option::Some(ps) => {
                            assert(taken == total - start);
                            assert(gpage.len() == (if limit as int >= dropped.len() {
                                dropped.len() as int
                            } else {
                                limit as int
                            }));
                            assert(taken <= limit);
                            assert(gpage.len() == taken);
                        },
                        Option::None => {
                            assert(gpage == dropped);
                            assert(gpage.len() == taken);
                        },
                    }
                } else {
                    assert(taken == limit);
                    match filter@.page_size {
                        Option::Some(ps) => {
                            assert(limit as int <= dropped.len());
                            assert(gpage.len() == limit as int);
                        },
                        Option::None => {
                            assert(false);
                        },
                    }
                }
                assert forall|j: int| 0 <= j < gpage.len() implies gpage[j] == gsorted[start + j]
                    by {
                    assert(dropped[j] == gsorted[start + j]);
                }
            }
            assert(rets_v(out@) =~= gpage.map_values(|r: DbObjectV| ret_of(r)));
        }
        Ok(out)
    }
}

/// Whether a row passes the summary filter: each given field must
/// match, and a search string must occur, case-folded, inside the
/// folded name.
pub open spec fn info_match(r: DbObjectV, f: crate::models::GetObjectInfosFilterV) -> bool {
    &&& match f.namespace {
        Option::Some(ns) => r.namespace == ns,
        Option::None => true,
    }
    &&& match f.kind {
        Option::Some(k) => r.kind == k,
        Option::None => true,
    }
    &&& match f.name {
        Option::Some(n) => r.name == n,
        Option::None => true,
    }
    &&& match f.name_search_string {
        Option::Some(q) => crate::text::is_substring(
            crate::outside::lower_of(r.name),
            crate::outside::lower_of(q),
        ),
        Option::None => true,
    }
}

/// The rows passing the summary filter, in table order.
pub open spec fn filter_info_objs(
    t: Seq<DbObjectV>,
    f: crate::models::GetObjectInfosFilterV,
) -> Seq<DbObjectV>
    decreases t.len(),
{
    if t.len() == 0 {
        Seq::empty()
    } else {
        filter_info_objs(t.drop_last(), f) + (if info_match(t.last(), f) {
            seq![t.last()]
        } else {
            Seq::empty()
        })
    }
}

/// The summary projection of a stored row.
pub open spec fn info_sum_of(r: DbObjectV) -> crate::models::ObjectInfoV {
    crate::models::ObjectInfoV {
        namespace: r.namespace,
        id: r.id,
        api_version: r.api_version,
        kind: r.kind,
        name: r.name,
    }
}

pub open spec fn api_infos_v(s: Seq<crate::models::ObjectInfo>) -> Seq<
    crate::models::ObjectInfoV,
> {
    s.map_values(|r: crate::models::ObjectInfo| r@)
}

/// What the summary listing returns for a filter over a table.
pub open spec fn get_infos_spec(t: Seq<DbObjectV>, f: crate::models::GetObjectInfosFilterV) -> Seq<
    crate::models::ObjectInfoV,
> {
    page_of(sort_rows(filter_info_objs(t, f)), f.page, f.page_size).map_values(
        |r: DbObjectV| info_sum_of(r),
    )
}

/// Summary rows of the objects passing the filter, ordered by kind
/// then name, paged and clamped: equality on namespace, kind and name,
/// and a case-insensitive containment search over the name.
#[verifier::loop_isolation(false)]
pub fn get_api_object_infos_with_filter(
    table: &Vec<Object>,
    filter: &crate::models::GetObjectInfosFilter,
) -> (r: Vec<crate::models::ObjectInfo>)
    ensures
        api_infos_v(r@) == get_infos_spec(objects_v(table@), filter@),
{
    let ghost gt = objects_v(table@);
    let ghost gf = filter@;
    let folded_query: Option<String> = match &filter.name_search_string {
        Option::Some(q) => Option::Some(crate::outside::lowercase(q.as_str())),
        Option::None => Option::None,
    };
    // select
    let mut matching: Vec<Object> = Vec::new();
    let mut i: usize = 0;
    proof {
        assert(gt.take(0) =~= Seq::<DbObjectV>::empty());
        assert(objects_v(matching@) =~= filter_info_objs(gt.take(0), gf));
    }
    while i < table.len()
        invariant
            0 <= i <= table.len(),
            gt.len() == table@.len(),
            objects_v(matching@) == filter_info_objs(gt.take(i as int), gf),
        decreases table.len() - i,
    {
        proof {
            assert(gt.take(i + 1).drop_last() =~= gt.take(i as int));
            assert(gt.take(i + 1).last() == gt[i as int]);
            assert(gt[i as int] == table@[i as int]@);
        }
        let row = &table[i];
        let mut keep = true;
        if let Option::Some(ns) = &filter.namespace {
            if !(row.namespace == *ns) {
                keep = false;
            }
        }
        if let Option::Some(k) = &filter.kind {
            if !(row.kind == *k) {
                keep = false;
            }
        }
        if let Option::Some(n) = &filter.name {
            if !(row.name == *n) {
                keep = false;
            }
        }
        if let Option::Some(ql) = &folded_query {
            let folded_name = crate::outside::lowercase(row.name.as_str());
            if !crate::text::contains_substring(&folded_name, ql) {
                keep = false;
            }
        }
        let ghost m0 = objects_v(matching@);
        if keep {
            let copy = row.duplicate();
            matching.push(copy);
            proof {
                assert(objects_v(matching@) =~= m0.push(gt[i as int]));
            }
        }
        proof {
            assert(objects_v(matching@) =~= filter_info_objs(gt.take(i + 1), gf));
        }
        i = i + 1;
    }
    proof {
        assert(gt.take(table@.len() as int) =~= gt);
    }
    // order
    let ghost gmatching = objects_v(matching@);
    let mut matching = matching;
    let mut sorted: Vec<Object> = Vec::new();
    proof {
        assert(objects_v(sorted@) =~= sort_rows(gmatching.take(0)));
    }
    let n = matching.len();
    let mut i: usize = 0;
    while i < n
        invariant
            0 <= i <= n,
            i + matching@.len() == n,
            n == gmatching.len(),
            objects_v(matching@) =~= gmatching.skip(i as int),
            objects_v(sorted@) == sort_rows(gmatching.take(i as int)),
        decreases n - i,
    {
        let ghost before_m = objects_v(matching@);
        let x = matching.remove(0);
        proof {
            assert(before_m =~= gmatching.skip(i as int));
            assert(x@ == before_m.first());
            assert(x@ == gmatching[i as int]);
            assert(objects_v(matching@) =~= before_m.drop_first());
            assert(objects_v(matching@) =~= gmatching.skip(i + 1));
            assert(gmatching.take(i + 1).drop_last() =~= gmatching.take(i as int));
            assert(gmatching.take(i + 1).last() == gmatching[i as int]);
        }
        sorted = insert_sorted_exec(x, sorted);
        i = i + 1;
    }
    proof {
        assert(gmatching.take(gmatching.len() as int) =~= gmatching);
    }
    // page
    let ghost gsorted = objects_v(sorted@);
    let total = sorted.len();
    let ghost goffset: int = match filter@.page {
        Option::Some(p) => p * (match filter@.page_size {
            Option::Some(ps) => ps as int,
            Option::None => 250int,
        }),
        Option::None => 0int,
    };
    let start: usize = match filter.page {
        Option::Some(p) => {
            let size: usize = match filter.page_size {
                Option::Some(ps) => ps,
                Option::None => 250,
            };
            proof {
                assert((p as int) * (size as int) <= 0xffffffffffffffffint
                    * 0xffffffffffffffffint) by (nonlinear_arith)
                    requires
                        p as int <= 0xffffffffffffffffint,
                        size as int <= 0xffffffffffffffffint,
                        p >= 0,
                        size >= 0,
                ;
            }
            let product: u128 = (p as u128) * (size as u128);
            proof {
                assert(product == goffset);
            }
            if product >= total as u128 {
                total
            } else {
                product as usize
            }
        },
        Option::None => 0,
    };
    proof {
        assert(goffset >= 0);
        assert(if goffset >= total as int {
            start == total
        } else {
            start as int == goffset
        });
    }
    let limit: usize = match filter.page_size {
        Option::Some(ps) => {
            if ps > 250 {
                250
            } else {
                ps
            }
        },
        Option::None => total,
    };
    let mut out: Vec<crate::models::ObjectInfo> = Vec::new();
    let ghost gpage = page_of(gsorted, filter@.page, filter@.page_size);
    let mut i: usize = start;
    let mut taken: usize = 0;
    while i < total && taken < limit
        invariant
            start <= i <= total,
            total == gsorted.len(),
            gsorted == objects_v(sorted@),
            gsorted.len() == sorted@.len(),
            taken == i - start,
            taken <= limit,
            out@.len() == taken,
            gpage == page_of(gsorted, filter@.page, filter@.page_size),
            goffset >= 0,
            goffset == (match filter@.page {
                Option::Some(p) => p * (match filter@.page_size {
                    Option::Some(ps) => ps as int,
                    Option::None => 250int,
                }),
                Option::None => 0int,
            }),
            (if goffset >= total as int {
                start == total
            } else {
                start as int == goffset
            }),
            forall|j: int| 0 <= j < taken ==> #[trigger] out@[j]@ == info_sum_of(gsorted[start + j]),
            match filter@.page_size {
                Option::Some(ps) => limit == (if ps > 250 {
                    250int
                } else {
                    ps as int
                }),
                Option::None => limit == total,
            },
        decreases total - i,
    {
        proof {
            assert(gsorted[i as int] == sorted@[i as int]@);
            assert(start < total);
            assert(goffset < total as int && start as int == goffset);
            let dropped = gsorted.skip(goffset);
            assert(dropped.len() == total - start);
            match filter@.page_size {
                Option::Some(ps) => {
                    assert(gpage.len() == (if limit as int >= dropped.len() {
                        dropped.len() as int
                    } else {
                        limit as int
                    }));
                },
                Option::None => {
                    assert(gpage.len() == dropped.len());
                },
            }
            assert(taken < gpage.len());
        }
        let row = &sorted[i];
        let info = crate::models::ObjectInfo {
            namespace: row.namespace.clone(),
            id: row.id,
            api_version: row.api_version.clone(),
            kind: row.kind.clone(),
            name: row.name.clone(),
        };
        proof {
            assert(info@ == info_sum_of(gsorted[i as int]));
        }
        out.push(info);
        i = i + 1;
        taken = taken + 1;
    }
    proof {
        if goffset >= total as int {
            assert(start == total);
            assert(taken == 0);
            assert(gpage.len() == 0);
        } else {
            let dropped = gsorted.skip(goffset);
            assert(dropped.len() == total - start);
            if i == total {
                match filter@.page_size {
                    Option::Some(ps) => {
                        assert(taken == total - start);
                        assert(gpage.len() == (if limit as int >= dropped.len() {
                            dropped.len() as int
                        } else {
                            limit as int
                        }));
                        assert(taken <= limit);
                        assert(gpage.len() == taken);
                    },
                    Option::None => {
                        assert(gpage == dropped);
                        assert(gpage.len() == taken);
                    },
                }
            } else {
                assert(taken == limit);
                match filter@.page_size {
                    Option::Some(ps) => {
                        assert(limit as int <= dropped.len());
                        assert(gpage.len() == limit as int);
                    },
                    Option::None => {
                        assert(false);
                    },
                }
            }
            assert forall|j: int| 0 <= j < gpage.len() implies gpage[j] == gsorted[start + j] by {
                assert(dropped[j] == gsorted[start + j]);
            }
        }
        assert(api_infos_v(out@) =~= gpage.map_values(|r: DbObjectV| info_sum_of(r)));
    }
    out
}

/// The constraint rows a seeding writes, in declaration order.
pub open spec fn seeded_fkcs(
    fks: Seq<crate::models::ForeignKeyV>,
    ids: Seq<u128>,
    av: Seq<char>,
    kind: Seq<char>,
) -> Seq<ForeignKeyConstraintV>
    decreases fks.len(),
{
    if fks.len() == 0 {
        Seq::empty()
    } else {
        seeded_fkcs(fks.drop_last(), ids.drop_last(), av, kind).push(
            ForeignKeyConstraintV {
                id: ids.last(),
                api_version: av,
                kind: kind,
                key_path: fks.last().path,
                parent_key_path: fks.last().parent_path,
                ty: fks.last().ty,
                behaviour: fks.last().behaviour,
                foreign_key_kind: fks.last().foreign_kind,
            },
        )
    }
}

pub proof fn lemma_seeded_fkcs_len(
    fks: Seq<crate::models::ForeignKeyV>,
    ids: Seq<u128>,
    av: Seq<char>,
    kind: Seq<char>,
)
    ensures
        seeded_fkcs(fks, ids, av, kind).len() == fks.len(),
    decreases fks.len(),
{
    if fks.len() > 0 {
        lemma_seeded_fkcs_len(fks.drop_last(), ids.drop_last(), av, kind);
    }
}

pub proof fn lemma_seeded_fkcs_index(
    fks: Seq<crate::models::ForeignKeyV>,
    ids: Seq<u128>,
    av: Seq<char>,
    kind: Seq<char>,
    j: int,
)
    requires
        ids.len() == fks.len(),
        0 <= j < fks.len(),
    ensures
        seeded_fkcs(fks, ids, av, kind)[j] == (ForeignKeyConstraintV {
            id: ids[j],
            api_version: av,
            kind: kind,
            key_path: fks[j].path,
            parent_key_path: fks[j].parent_path,
            ty: fks[j].ty,
            behaviour: fks[j].behaviour,
            foreign_key_kind: fks[j].foreign_kind,
        }),
    decreases fks.len(),
{
    lemma_seeded_fkcs_len(fks, ids, av, kind);
    if j < fks.len() - 1 {
        lemma_seeded_fkcs_len(fks.drop_last(), ids.drop_last(), av, kind);
        lemma_seeded_fkcs_index(fks.drop_last(), ids.drop_last(), av, kind, j);
    }
}

/// Every seeded constraint row carries the seeded key.
pub proof fn lemma_seeded_fkcs_key(
    fks: Seq<crate::models::ForeignKeyV>,
    ids: Seq<u128>,
    av: Seq<char>,
    kind: Seq<char>,
    x: int,
)
    requires
        0 <= x < seeded_fkcs(fks, ids, av, kind).len(),
    ensures
        seeded_fkcs(fks, ids, av, kind)[x].api_version == av,
        seeded_fkcs(fks, ids, av, kind)[x].kind == kind,
    decreases fks.len(),
{
    if fks.len() > 0 {
        if x < seeded_fkcs(fks.drop_last(), ids.drop_last(), av, kind).len() {
            lemma_seeded_fkcs_key(fks.drop_last(), ids.drop_last(), av, kind, x);
        }
    }
}

} // verus!
