//! Operations on the four tables of the store. Each mirrors one
//! parameterized statement of the persistence layer: keyed lookups,
//! order-preserving filters, batch upserts and set-based deletes, with
//! the unique indexes of the tables enforced as errors.
use vstd::prelude::*;

use crate::data_models::{
    ForeignKeyConstraint, ForeignKeyConstraintV, Object, ObjectInfo, ObjectInfoV, ObjectSchema,
    ObjectSchemaV, DbObjectV, Relation,
};
use crate::error::{DawnStoreError, ErrV};

verus! {

pub open spec fn schemas_v(s: Seq<ObjectSchema>) -> Seq<ObjectSchemaV> {
    s.map_values(|r: ObjectSchema| r@)
}

pub open spec fn fkcs_v(s: Seq<ForeignKeyConstraint>) -> Seq<ForeignKeyConstraintV> {
    s.map_values(|r: ForeignKeyConstraint| r@)
}

pub open spec fn objects_v(s: Seq<Object>) -> Seq<DbObjectV> {
    s.map_values(|r: Object| r@)
}

pub open spec fn infos_v(s: Seq<ObjectInfo>) -> Seq<ObjectInfoV> {
    s.map_values(|r: ObjectInfo| r@)
}

/// The schema table never holds two rows for one `(api_version, kind)`.
pub open spec fn wf_schemas(s: Seq<ObjectSchemaV>) -> bool {
    forall|i: int, j: int|
        0 <= i < j < s.len() ==> !(#[trigger] s[i].api_version == #[trigger] s[j].api_version
            && s[i].kind == s[j].kind)
}

/// The object table never holds two rows with one `id` or one
/// `string_id`.
pub open spec fn wf_objects(t: Seq<DbObjectV>) -> bool {
    &&& forall|i: int, j: int| 0 <= i < j < t.len() ==> (#[trigger] t[i].id) != (#[trigger] t[j].id)
    &&& forall|i: int, j: int|
        0 <= i < j < t.len() ==> (#[trigger] t[i].string_id) != (#[trigger] t[j].string_id)
}

/// The relation table never holds one edge twice.
pub open spec fn wf_relations(r: Seq<Relation>) -> bool {
    forall|i: int, j: int| 0 <= i < j < r.len() ==> (#[trigger] r[i]) != (#[trigger] r[j])
}

pub open spec fn has_schema(s: Seq<ObjectSchemaV>, av: Seq<char>, k: Seq<char>) -> bool {
    exists|i: int| 0 <= i < s.len() && (#[trigger] s[i]).api_version == av && s[i].kind == k
}

/// Under `wf_schemas` the matching row, when there is one.
pub open spec fn schema_of(s: Seq<ObjectSchemaV>, av: Seq<char>, k: Seq<char>) -> ObjectSchemaV {
    s[choose|i: int| 0 <= i < s.len() && (#[trigger] s[i]).api_version == av && s[i].kind == k]
}

/// `SELECT * FROM object_schemas WHERE kind = $1 AND api_version = $2`.
#[verifier::loop_isolation(false)]
pub fn get_object_schema<'a>(
    table: &'a Vec<ObjectSchema>,
    api_version: &String,
    kind: &String,
) -> (r: Option<&'a ObjectSchema>)
    requires
        wf_schemas(schemas_v(table@)),
    ensures
        match r {
            Some(row) => has_schema(schemas_v(table@), api_version@, kind@) && row@ == schema_of(
                schemas_v(table@),
                api_version@,
                kind@,
            ),
            None => !has_schema(schemas_v(table@), api_version@, kind@),
        },
{
    let ghost gs = schemas_v(table@);
    let mut i: usize = 0;
    while i < table.len()
        invariant
            0 <= i <= table.len(),
            gs == schemas_v(table@),
            gs.len() == table@.len(),
            forall|j: int|
                0 <= j < i ==> !((#[trigger] gs[j]).api_version == api_version@ && gs[j].kind
                    == kind@),
        decreases table.len() - i,
    {
        if table[i].api_version == *api_version && table[i].kind == *kind {
            proof {
                assert(gs[i as int] == table@[i as int]@);
                assert(has_schema(gs, api_version@, kind@));
                let j = choose|j: int|
                    0 <= j < gs.len() && (#[trigger] gs[j]).api_version == api_version@ && gs[j].kind
                        == kind@;
                assert(gs[i as int].api_version == api_version@ && gs[i as int].kind == kind@);
                assert(gs[j].api_version == api_version@ && gs[j].kind == kind@);
                assert(j == i as int);
            }
            return Some(&table[i]);
        }
        proof {
            assert(gs[i as int] == table@[i as int]@);
        }
        i = i + 1;
    }
    None
}

/// `INSERT INTO object_schemas ...`; the unique `(api_version, kind)`
/// index turns a duplicate into an error and leaves the table as it is.
#[verifier::loop_isolation(false)]
pub fn insert_object_schema(table: &mut Vec<ObjectSchema>, item: ObjectSchema) -> (r: Result<
    (),
    DawnStoreError,
>)
    ensures
        match r {
            Ok(()) => !has_schema(schemas_v(old(table)@), item@.api_version, item@.kind)
                && schemas_v(final(table)@) == schemas_v(old(table)@).push(item@),
            Err(e) => has_schema(schemas_v(old(table)@), item@.api_version, item@.kind)
                && final(table)@ == old(table)@ && e@ == ErrV::DatabaseError(Seq::empty()),
        },
{
    let ghost gs = schemas_v(table@);
    let mut i: usize = 0;
    while i < table.len()
        invariant
            0 <= i <= table.len(),
            gs == schemas_v(table@),
            gs.len() == table@.len(),
            forall|j: int|
                0 <= j < i ==> !((#[trigger] gs[j]).api_version == item@.api_version && gs[j].kind
                    == item@.kind),
        decreases table.len() - i,
    {
        if table[i].api_version == item.api_version && table[i].kind == item.kind {
            proof {
                assert(gs[i as int] == table@[i as int]@);
                assert(has_schema(gs, item@.api_version, item@.kind));
            }
            return Err(DawnStoreError::DatabaseError(String::new()));
        }
        proof {
            assert(gs[i as int] == table@[i as int]@);
        }
        i = i + 1;
    }
    table.push(item);
    proof {
        assert(schemas_v(table@) =~= gs.push(item@));
    }
    Ok(())
}

/// A batch of schema inserts, row by row in batch order; the first
/// duplicate key is an error.
pub open spec fn insert_schemas_all(t: Seq<ObjectSchemaV>, items: Seq<ObjectSchemaV>) -> Result<
    Seq<ObjectSchemaV>,
    (),
>
    decreases items.len(),
{
    if items.len() == 0 {
        Ok(t)
    } else if has_schema(t, items.first().api_version, items.first().kind) {
        Err(())
    } else {
        insert_schemas_all(t.push(items.first()), items.drop_first())
    }
}

/// The schema-insert batch splits at any point.
pub proof fn lemma_insert_schemas_split(t: Seq<ObjectSchemaV>, items: Seq<ObjectSchemaV>, i: int)
    requires
        0 <= i <= items.len(),
    ensures
        insert_schemas_all(t, items) == match insert_schemas_all(t, items.take(i)) {
            Ok(u) => insert_schemas_all(u, items.skip(i)),
            Err(e) => Err(e),
        },
    decreases i,
{
    if i == 0 {
        assert(items.take(0) =~= Seq::<ObjectSchemaV>::empty());
        assert(insert_schemas_all(t, items.take(0)) == Ok::<_, ()>(t));
        assert(items.skip(0) =~= items);
    } else {
        assert(items.take(i).first() == items.first());
        if !has_schema(t, items.first().api_version, items.first().kind) {
            lemma_insert_schemas_split(t.push(items.first()), items.drop_first(), i - 1);
            assert(items.take(i).drop_first() =~= items.drop_first().take(i - 1));
            assert(items.skip(i) =~= items.drop_first().skip(i - 1));
        }
    }
}

/// `INSERT INTO object_schemas ...` for a batch; on an error the caller
/// discards the working table, as the surrounding transaction would.
#[verifier::loop_isolation(false)]
pub fn insert_multiple_object_schemas(table: &mut Vec<ObjectSchema>, items: &Vec<ObjectSchema>) -> (r:
    Result<(), DawnStoreError>)
    ensures
        match r {
            Ok(()) => insert_schemas_all(schemas_v(old(table)@), schemas_v(items@)) == Ok::<_, ()>(
                schemas_v(final(table)@),
            ),
            Err(e) => insert_schemas_all(schemas_v(old(table)@), schemas_v(items@)) is Err && e@
                == ErrV::DatabaseError(Seq::empty()),
        },
{
    let ghost t0 = schemas_v(old(table)@);
    let ghost gi = schemas_v(items@);
    let mut i: usize = 0;
    proof {
        assert(gi.take(0) =~= Seq::<ObjectSchemaV>::empty());
    }
    while i < items.len()
        invariant
            0 <= i <= items.len(),
            gi.len() == items@.len(),
            gi == schemas_v(items@),
            insert_schemas_all(t0, gi.take(i as int)) == Ok::<_, ()>(schemas_v(table@)),
        decreases items.len() - i,
    {
        let ghost cur = schemas_v(table@);
        proof {
            lemma_insert_schemas_split(t0, gi, i as int);
            assert(gi[i as int] == items@[i as int]@);
            assert(gi.skip(i as int).first() == gi[i as int]);
            assert(gi.skip(i as int).drop_first() =~= gi.skip(i + 1));
            assert(gi.take(i + 1) =~= gi.take(i as int).push(gi[i as int]));
            lemma_insert_schemas_split(t0, gi.take(i + 1), i as int);
            assert(gi.take(i + 1).take(i as int) =~= gi.take(i as int));
            assert(gi.take(i + 1).skip(i as int) =~= seq![gi[i as int]]);
        }
        let row = items[i].duplicate();
        match insert_object_schema(table, row) {
            Ok(()) => {
                proof {
                    assert(seq![gi[i as int]].first() == gi[i as int]);
                    assert(seq![gi[i as int]].drop_first() =~= Seq::<ObjectSchemaV>::empty());
                    assert(insert_schemas_all(
                        cur.push(gi[i as int]),
                        Seq::<ObjectSchemaV>::empty(),
                    ) == Ok::<_, ()>(cur.push(gi[i as int])));
                    assert(schemas_v(table@) == cur.push(gi[i as int]));
                    assert(insert_schemas_all(cur, seq![gi[i as int]]) == Ok::<_, ()>(
                        schemas_v(table@),
                    ));
                }
            },
            Err(e) => {
                proof {
                    assert(has_schema(cur, gi[i as int].api_version, gi[i as int].kind));
                    assert(insert_schemas_all(cur, gi.skip(i as int)) is Err);
                    assert(insert_schemas_all(t0, gi) is Err);
                }
                return Err(e);
            },
        }
        i = i + 1;
    }
    proof {
        assert(gi.take(items@.len() as int) =~= gi);
    }
    Ok(())
}

/// The schema table with the row of this `id` rewritten to the given
/// `api_version`, `kind` and schema text; `aliases` stay.
pub open spec fn rewrite_schema(cur: ObjectSchemaV, item: ObjectSchemaV) -> ObjectSchemaV {
    ObjectSchemaV {
        id: cur.id,
        api_version: item.api_version,
        kind: item.kind,
        aliases: cur.aliases,
        json_schema: item.json_schema,
    }
}

pub open spec fn update_schema_spec(s: Seq<ObjectSchemaV>, item: ObjectSchemaV) -> Seq<
    ObjectSchemaV,
> {
    s.map_values(
        |r: ObjectSchemaV|
            if r.id == item.id {
                rewrite_schema(r, item)
            } else {
                r
            },
    )
}

/// `UPDATE object_schemas SET api_version = ..., kind = ...,
/// json_schema = ... WHERE id = $1`; a key moved onto another row is a
/// unique violation and leaves the table as it is.
#[verifier::loop_isolation(false)]
pub fn update_object_schema(table: &mut Vec<ObjectSchema>, item: &ObjectSchema) -> (r: Result<
    (),
    DawnStoreError,
>)
    requires
        wf_schemas(schemas_v(old(table)@)),
        forall|i: int, j: int|
            0 <= i < j < schemas_v(old(table)@).len() ==> (#[trigger] schemas_v(old(table)@)[i]).id
                != (#[trigger] schemas_v(old(table)@)[j]).id,
    ensures
        wf_schemas(schemas_v(final(table)@)),
        match r {
            Ok(()) => schemas_v(final(table)@) == update_schema_spec(
                schemas_v(old(table)@),
                item@,
            ),
            Err(e) => final(table)@ == old(table)@ && e@ == ErrV::DatabaseError(Seq::empty())
                && exists|a: int, b: int|
                0 <= a < schemas_v(old(table)@).len() && 0 <= b < schemas_v(old(table)@).len() && a
                    != b && (#[trigger] update_schema_spec(schemas_v(old(table)@), item@)[a]).api_version
                    == (#[trigger] update_schema_spec(schemas_v(old(table)@), item@)[b]).api_version
                    && update_schema_spec(schemas_v(old(table)@), item@)[a].kind
                    == update_schema_spec(schemas_v(old(table)@), item@)[b].kind,
        },
{
    let ghost gt = schemas_v(old(table)@);
    let ghost gafter = update_schema_spec(gt, item@);
    // a rewritten key must not collide with any other row
    let mut k: usize = 0;
    while k < table.len()
        invariant
            0 <= k <= table.len(),
            table@ == old(table)@,
            gt.len() == table@.len(),
            forall|m: int|
                0 <= m < k ==> !((#[trigger] gt[m]).id != item@.id && gt[m].api_version
                    == item@.api_version && gt[m].kind == item@.kind),
        decreases table.len() - k,
    {
        proof {
            assert(gt[k as int] == table@[k as int]@);
        }
        if !(table[k].id == item.id) && table[k].api_version == item.api_version && table[k].kind
            == item.kind {
            let mut m: usize = 0;
            let mut hit: bool = false;
            while m < table.len() && !hit
                invariant
                    0 <= m <= table.len(),
                    table@ == old(table)@,
                    gt.len() == table@.len(),
                    !hit ==> forall|x: int| 0 <= x < m ==> (#[trigger] gt[x]).id != item@.id,
                    hit ==> m < table@.len() && gt[m as int].id == item@.id,
                decreases table.len() - m + (if hit { 0int } else { 1int }),
            {
                proof {
                    assert(gt[m as int] == table@[m as int]@);
                }
                if table[m].id == item.id {
                    hit = true;
                } else {
                    m = m + 1;
                }
            }
            if hit {
                proof {
                    assert(gafter[m as int].api_version == item@.api_version);
                    assert(gafter[m as int].kind == item@.kind);
                    assert(gafter[k as int] == gt[k as int]);
                    assert(m as int != k as int);
                }
                return Err(DawnStoreError::DatabaseError(String::new()));
            }
            proof {
                assert(forall|x: int| 0 <= x < gt.len() ==> (#[trigger] gt[x]).id != item@.id);
                assert(gafter =~= gt);
            }
            return Ok(());
        }
        k = k + 1;
    }
    // rewrite the matching row, if any
    let mut i: usize = 0;
    while i < table.len()
        invariant
            0 <= i <= table.len(),
            table@.len() == old(table)@.len(),
            gt.len() == old(table)@.len(),
            forall|j: int| i <= j < table@.len() ==> #[trigger] table@[j]@ == gt[j],
            forall|j: int| 0 <= j < i ==> #[trigger] table@[j]@ == gafter[j],
            forall|m: int|
                0 <= m < gt.len() ==> !((#[trigger] gt[m]).id != item@.id && gt[m].api_version
                    == item@.api_version && gt[m].kind == item@.kind),
        decreases table.len() - i,
    {
        if table[i].id == item.id {
            proof {
                assert(table@[i as int]@ == gt[i as int]);
                assert(gt[i as int].id == item@.id);
            }
            let merged = ObjectSchema {
                id: table[i].id,
                api_version: item.api_version.clone(),
                kind: item.kind.clone(),
                aliases: crate::models::clone_strings(&table[i].aliases),
                json_schema: item.json_schema.clone(),
            };
            proof {
                assert(merged@ == rewrite_schema(gt[i as int], item@));
            }
            table[i] = merged;
        }
        proof {
            assert(table@[i as int]@ == gafter[i as int]);
        }
        i = i + 1;
    }
    proof {
        assert(schemas_v(table@) =~= gafter);
        assert forall|a: int, b: int| 0 <= a < b < gafter.len() implies !((
        #[trigger] gafter[a]).api_version == (#[trigger] gafter[b]).api_version && gafter[a].kind
            == gafter[b].kind) by {
            if gt[a].id == item@.id && gt[b].id == item@.id {
                assert(gt[a].id != gt[b].id);
                assert(false);
            } else if gt[a].id == item@.id {
                assert(gafter[b] == gt[b]);
            } else if gt[b].id == item@.id {
                assert(gafter[a] == gt[a]);
            } else {
                assert(gafter[a] == gt[a] && gafter[b] == gt[b]);
            }
        }
    }
    Ok(())
}

/// Rows of the constraint table for one `(api_version, kind)`, in table
/// order.
pub open spec fn filter_fkcs(
    s: Seq<ForeignKeyConstraintV>,
    av: Seq<char>,
    k: Seq<char>,
) -> Seq<ForeignKeyConstraintV>
    decreases s.len(),
{
    if s.len() == 0 {
        Seq::empty()
    } else {
        filter_fkcs(s.drop_last(), av, k) + (if s.last().api_version == av && s.last().kind == k {
            seq![s.last()]
        } else {
            Seq::empty()
        })
    }
}

/// `SELECT ... FROM foreign_key_constraints WHERE api_version = $1 AND
/// kind = $2`.
#[verifier::loop_isolation(false)]
pub fn get_foreign_key_constraints(
    table: &Vec<ForeignKeyConstraint>,
    api_version: &String,
    kind: &String,
) -> (r: Vec<ForeignKeyConstraint>)
    ensures
        fkcs_v(r@) == filter_fkcs(fkcs_v(table@), api_version@, kind@),
{
    let ghost gs = fkcs_v(table@);
    let mut out: Vec<ForeignKeyConstraint> = Vec::new();
    let mut i: usize = 0;
    proof {
        assert(gs.take(0) =~= Seq::<ForeignKeyConstraintV>::empty());
        assert(fkcs_v(out@) =~= filter_fkcs(gs.take(0), api_version@, kind@));
    }
    while i < table.len()
        invariant
            0 <= i <= table.len(),
            fkcs_v(out@) == filter_fkcs(gs.take(i as int), api_version@, kind@),
        decreases table.len() - i,
    {
        proof {
            assert(gs.take(i + 1).drop_last() =~= gs.take(i as int));
            assert(gs.take(i + 1).last() == gs[i as int]);
            assert(gs[i as int] == table@[i as int]@);
        }
        let ghost out0 = fkcs_v(out@);
        if table[i].api_version == *api_version && table[i].kind == *kind {
            let row = table[i].duplicate();
            out.push(row);
            proof {
                assert(fkcs_v(out@) =~= out0.push(table@[i as int]@));
                assert(fkcs_v(out@) =~= filter_fkcs(gs.take(i + 1), api_version@, kind@));
            }
        } else {
            proof {
                assert(fkcs_v(out@) =~= filter_fkcs(gs.take(i + 1), api_version@, kind@));
            }
        }
        i = i + 1;
    }
    proof {
        assert(gs.take(table@.len() as int) =~= gs);
    }
    out
}

/// `INSERT INTO foreign_key_constraints ...` for a batch, appending in
/// order.
#[verifier::loop_isolation(false)]
pub fn insert_multiple_foreign_key_constraints(
    table: &mut Vec<ForeignKeyConstraint>,
    rows: &Vec<ForeignKeyConstraint>,
)
    ensures
        fkcs_v(final(table)@) == fkcs_v(old(table)@) + fkcs_v(rows@),
{
    let ghost gt = fkcs_v(old(table)@);
    let ghost gr = fkcs_v(rows@);
    let n = rows.len();
    let mut i: usize = 0;
    proof {
        assert(fkcs_v(table@) =~= gt + gr.take(0));
    }
    while i < n
        invariant
            0 <= i <= n,
            n == gr.len(),
            gr == fkcs_v(rows@),
            gr.len() == rows@.len(),
            fkcs_v(table@) == gt + gr.take(i as int),
        decreases n - i,
    {
        proof {
            assert(gr[i as int] == rows@[i as int]@);
        }
        let row = rows[i].duplicate();
        let ghost t0 = fkcs_v(table@);
        table.push(row);
        proof {
            assert(fkcs_v(table@) =~= t0.push(gr[i as int]));
            assert(gt + gr.take(i + 1) =~= (gt + gr.take(i as int)).push(gr[i as int]));
        }
        i = i + 1;
    }
    proof {
        assert(gr.take(n as int) =~= gr);
        assert(fkcs_v(table@) =~= gt + gr);
    }
}

pub open spec fn has_obj_id(t: Seq<DbObjectV>, id: u128) -> bool {
    exists|i: int| 0 <= i < t.len() && (#[trigger] t[i]).id == id
}

/// Under `wf_objects` the index of the row with this `id`.
pub open spec fn obj_idx_by_id(t: Seq<DbObjectV>, id: u128) -> int {
    choose|i: int| 0 <= i < t.len() && (#[trigger] t[i]).id == id
}

pub open spec fn has_obj_sid(t: Seq<DbObjectV>, sid: Seq<char>) -> bool {
    exists|i: int| 0 <= i < t.len() && (#[trigger] t[i]).string_id == sid
}

/// Under `wf_objects` the index of the row with this `string_id`.
pub open spec fn obj_idx_by_sid(t: Seq<DbObjectV>, sid: Seq<char>) -> int {
    choose|i: int| 0 <= i < t.len() && (#[trigger] t[i]).string_id == sid
}

/// The row after a conflicting upsert: every mutable column is taken
/// from the incoming row, `id` and `created_at` stay.
pub open spec fn merge_row(cur: DbObjectV, item: DbObjectV) -> DbObjectV {
    DbObjectV { id: cur.id, created_at: cur.created_at, ..item }
}

/// Whether some row other than the one at `j` already carries `sid`.
pub open spec fn sid_clash_elsewhere(t: Seq<DbObjectV>, sid: Seq<char>, j: int) -> bool {
    exists|k: int| 0 <= k < t.len() && k != j && (#[trigger] t[k]).string_id == sid
}

/// One row of the batch upsert: update on an `id` conflict, insert
/// otherwise; a `string_id` unique violation is an error.
pub open spec fn upsert_one(t: Seq<DbObjectV>, item: DbObjectV) -> Result<Seq<DbObjectV>, ()> {
    if has_obj_id(t, item.id) {
        let j = obj_idx_by_id(t, item.id);
        if sid_clash_elsewhere(t, item.string_id, j) {
            Err(())
        } else {
            Ok(t.update(j, merge_row(t[j], item)))
        }
    } else if has_obj_sid(t, item.string_id) {
        Err(())
    } else {
        Ok(t.push(item))
    }
}

/// The batch upsert, row by row in batch order.
pub open spec fn upsert_all(t: Seq<DbObjectV>, items: Seq<DbObjectV>) -> Result<
    Seq<DbObjectV>,
    (),
>
    decreases items.len(),
{
    if items.len() == 0 {
        Ok(t)
    } else {
        match upsert_one(t, items.first()) {
            Ok(t2) => upsert_all(t2, items.drop_first()),
            Err(e) => Err(e),
        }
    }
}

/// The batch splits at any point: process a prefix, then the rest.
pub proof fn lemma_upsert_all_split(t: Seq<DbObjectV>, items: Seq<DbObjectV>, i: int)
    requires
        0 <= i <= items.len(),
    ensures
        upsert_all(t, items) == match upsert_all(t, items.take(i)) {
            Ok(u) => upsert_all(u, items.skip(i)),
            Err(e) => Err(e),
        },
    decreases i,
{
    if i == 0 {
        assert(items.take(0) =~= Seq::<DbObjectV>::empty());
        assert(upsert_all(t, items.take(0)) == Ok::<_, ()>(t));
        assert(items.skip(0) =~= items);
    } else {
        assert(items.len() > 0);
        assert(items.take(i).len() > 0);
        assert(items.take(i).first() == items.first());
        match upsert_one(t, items.first()) {
            Ok(t2) => {
                lemma_upsert_all_split(t2, items.drop_first(), i - 1);
                assert(items.take(i).drop_first() =~= items.drop_first().take(i - 1));
                assert(items.skip(i) =~= items.drop_first().skip(i - 1));
                assert(upsert_all(t, items) == upsert_all(t2, items.drop_first()));
                assert(upsert_all(t, items.take(i)) == upsert_all(t2, items.take(i).drop_first()));
            },
            Err(_) => {},
        }
    }
}

/// A prefix of the batch first, then one more row.
pub proof fn lemma_upsert_all_snoc(t: Seq<DbObjectV>, items: Seq<DbObjectV>, i: int)
    requires
        0 <= i < items.len(),
    ensures
        upsert_all(t, items.take(i + 1)) == match upsert_all(t, items.take(i)) {
            Ok(u) => upsert_one(u, items[i]),
            Err(e) => Err(e),
        },
{
    let pre = items.take(i + 1);
    lemma_upsert_all_split(t, pre, i);
    assert(pre.take(i) =~= items.take(i));
    assert(pre.skip(i) =~= seq![items[i]]);
    match upsert_all(t, items.take(i)) {
        Ok(u) => {
            assert(seq![items[i]].first() == items[i]);
            assert(seq![items[i]].drop_first() =~= Seq::<DbObjectV>::empty());
            match upsert_one(u, items[i]) {
                Ok(t2) => {
                    assert(upsert_all(u, seq![items[i]]) == upsert_all(t2, seq![items[i]].drop_first()));
                    assert(upsert_all(t2, seq![items[i]].drop_first()) == Ok::<_, ()>(t2));
                },
                Err(_) => {},
            }
        },
        Err(_) => {},
    }
}

/// `INSERT INTO objects ... ON CONFLICT (id) DO UPDATE ...` for a
/// batch, run as the single statement it stands for: on an error the
/// table is left exactly as it was.
pub fn insert_or_update_multiple_objects(table: &mut Vec<Object>, items: &Vec<Object>) -> (r:
    Result<(), DawnStoreError>)
    requires
        wf_objects(objects_v(old(table)@)),
    ensures
        match r {
            Ok(()) => upsert_all(objects_v(old(table)@), objects_v(items@)) == Ok::<_, ()>(
                objects_v(final(table)@),
            ) && wf_objects(objects_v(final(table)@)),
            Err(e) => upsert_all(objects_v(old(table)@), objects_v(items@)) is Err
                && e@ == ErrV::DatabaseError(Seq::empty()) && final(table)@ == old(table)@,
        },
{
    let mut work = copy_objects(table);
    match upsert_rows_in_place(&mut work, items) {
        Ok(()) => {
            *table = work;
            Ok(())
        },
        Err(e) => Err(e),
    }
}

/// The row-by-row work of the batch upsert, on a working table.
#[verifier::loop_isolation(false)]
fn upsert_rows_in_place(table: &mut Vec<Object>, items: &Vec<Object>) -> (r: Result<
    (),
    DawnStoreError,
>)
    requires
        wf_objects(objects_v(old(table)@)),
    ensures
        match r {
            Ok(()) => upsert_all(objects_v(old(table)@), objects_v(items@)) == Ok::<_, ()>(
                objects_v(final(table)@),
            ) && wf_objects(objects_v(final(table)@)),
            Err(e) => upsert_all(objects_v(old(table)@), objects_v(items@)) is Err
                && e@ == ErrV::DatabaseError(Seq::empty()),
        },
{
    let ghost t0 = objects_v(old(table)@);
    let ghost gi = objects_v(items@);
    let mut i: usize = 0;
    proof {
        assert(gi.take(0) =~= Seq::<DbObjectV>::empty());
    }
    while i < items.len()
        invariant
            0 <= i <= items.len(),
            gi.len() == items@.len(),
            upsert_all(t0, gi.take(i as int)) == Ok::<_, ()>(objects_v(table@)),
            wf_objects(objects_v(table@)),
        decreases items.len() - i,
    {
        let ghost cur = objects_v(table@);
        proof {
            lemma_upsert_all_snoc(t0, gi, i as int);
            assert(gi[i as int] == items@[i as int]@);
        }
        let item = &items[i];
        // find a row with the same id
        let mut j: usize = 0;
        let mut found: bool = false;
        while j < table.len() && !found
            invariant
                0 <= j <= table.len(),
                cur == objects_v(table@),
                cur.len() == table@.len(),
                !found ==> forall|k: int| 0 <= k < j ==> (#[trigger] cur[k]).id != item@.id,
                found ==> j < table@.len() && cur[j as int].id == item@.id,
            decreases table.len() - j + (if found { 0int } else { 1int }),
        {
            proof {
                assert(cur[j as int] == table@[j as int]@);
            }
            if table[j].id == item.id {
                found = true;
            } else {
                j = j + 1;
            }
        }
        if found {
            proof {
                assert(has_obj_id(cur, item@.id));
                let w = obj_idx_by_id(cur, item@.id);
                assert(cur[w].id == item@.id);
                assert(w == j as int);
            }
            // a changed string_id must not collide with any other row
            let mut k: usize = 0;
            while k < table.len()
                invariant
                    0 <= k <= table.len(),
                    cur == objects_v(table@),
                    cur.len() == table@.len(),
                    j < table@.len(),
                    forall|m: int|
                        0 <= m < k && m != j ==> (#[trigger] cur[m]).string_id != item@.string_id,
                decreases table.len() - k,
            {
                proof {
                    assert(cur[k as int] == table@[k as int]@);
                }
                if k != j && table[k].string_id == item.string_id {
                    proof {
                        assert(sid_clash_elsewhere(cur, item@.string_id, j as int));
                        assert(upsert_one(cur, gi[i as int]) is Err);
                        lemma_upsert_all_split(t0, gi, i as int);
                        assert(gi.skip(i as int).first() == gi[i as int]);
                        assert(upsert_all(t0, gi) is Err);
                    }
                    return Err(DawnStoreError::DatabaseError(String::new()));
                }
                k = k + 1;
            }
            proof {
                assert(!sid_clash_elsewhere(cur, item@.string_id, j as int));
            }
            let merged = Object {
                id: table[j].id,
                created_at: table[j].created_at,
                string_id: item.string_id.clone(),
                api_version: item.api_version.clone(),
                name: item.name.clone(),
                kind: item.kind.clone(),
                updated_at: item.updated_at,
                namespace: item.namespace.clone(),
                annotations: crate::models::clone_smap(&item.annotations),
                labels: crate::models::clone_smap(&item.labels),
                owners: Vec::new(),
                spec: crate::json::deep_copy(&item.spec),
            };
            proof {
                assert(merged@ == DbObjectV {
                    owners: Seq::empty(),
                    ..merge_row(cur[j as int], item@)
                });
            }
            let ghost mrow = merge_row(cur[j as int], item@);
            let merged = Object { owners: owners_copy(&item.owners), ..merged };
            proof {
                assert(merged@ == mrow);
            }
            table[j] = merged;
            proof {
                assert(objects_v(table@) =~= cur.update(j as int, mrow));
                assert(upsert_one(cur, gi[i as int]) == Ok::<_, ()>(objects_v(table@)));
                assert(upsert_all(t0, gi.take(i + 1)) == Ok::<_, ()>(objects_v(table@)));
                assert forall|a: int, b: int|
                    0 <= a < b < objects_v(table@).len() implies (#[trigger] objects_v(
                    table@,
                )[a]).id != (#[trigger] objects_v(table@)[b]).id by {
                    assert(cur[a].id == objects_v(table@)[a].id || a == j);
                    assert(cur[b].id == objects_v(table@)[b].id || b == j);
                }
                assert forall|a: int, b: int|
                    0 <= a < b < objects_v(table@).len() implies (#[trigger] objects_v(
                    table@,
                )[a]).string_id != (#[trigger] objects_v(table@)[b]).string_id by {
                    if a != j && b != j {
                        assert(cur[a].string_id == objects_v(table@)[a].string_id);
                        assert(cur[b].string_id == objects_v(table@)[b].string_id);
                    }
                }
                assert(wf_objects(objects_v(table@)));
            }
        } else {
            proof {
                assert(!has_obj_id(cur, item@.id));
            }
            // a fresh row must not collide on string_id either
            let mut k: usize = 0;
            while k < table.len()
                invariant
                    0 <= k <= table.len(),
                    cur == objects_v(table@),
                    cur.len() == table@.len(),
                    forall|m: int|
                        0 <= m < k ==> (#[trigger] cur[m]).string_id != item@.string_id,
                decreases table.len() - k,
            {
                proof {
                    assert(cur[k as int] == table@[k as int]@);
                }
                if table[k].string_id == item.string_id {
                    proof {
                        assert(has_obj_sid(cur, item@.string_id));
                        assert(upsert_one(cur, gi[i as int]) is Err);
                        lemma_upsert_all_split(t0, gi, i as int);
                        assert(gi.skip(i as int).first() == gi[i as int]);
                        assert(upsert_all(t0, gi) is Err);
                    }
                    return Err(DawnStoreError::DatabaseError(String::new()));
                }
                k = k + 1;
            }
            proof {
                assert(!has_obj_sid(cur, item@.string_id));
            }
            let fresh = item.duplicate();
            table.push(fresh);
            proof {
                assert(objects_v(table@) =~= cur.push(item@));
                assert(upsert_one(cur, gi[i as int]) == Ok::<_, ()>(objects_v(table@)));
                assert(upsert_all(t0, gi.take(i + 1)) == Ok::<_, ()>(objects_v(table@)));
                assert forall|a: int, b: int|
                    0 <= a < b < objects_v(table@).len() implies (#[trigger] objects_v(
                    table@,
                )[a]).id != (#[trigger] objects_v(table@)[b]).id by {
                    if b < cur.len() {
                        assert(cur[a].id != cur[b].id);
                    } else {
                        assert(objects_v(table@)[b] == item@);
                        assert(!has_obj_id(cur, item@.id));
                        assert(cur[a].id != item@.id);
                    }
                }
                assert forall|a: int, b: int|
                    0 <= a < b < objects_v(table@).len() implies (#[trigger] objects_v(
                    table@,
                )[a]).string_id != (#[trigger] objects_v(table@)[b]).string_id by {
                    if b < cur.len() {
                        assert(cur[a].string_id != cur[b].string_id);
                    } else {
                        assert(objects_v(table@)[b] == item@);
                        assert(cur[a].string_id != item@.string_id);
                    }
                }
                assert(wf_objects(objects_v(table@)));
            }
        }
        i = i + 1;
    }
    proof {
        assert(gi.take(items@.len() as int) =~= gi);
    }
    Ok(())
}

pub open spec fn info_of(r: DbObjectV) -> ObjectInfoV {
    ObjectInfoV { id: r.id, string_id: r.string_id, created_at: r.created_at }
}

/// Projections of the rows whose `string_id` is listed, in table order.
pub open spec fn filter_infos(t: Seq<DbObjectV>, sids: Seq<Seq<char>>) -> Seq<ObjectInfoV>
    decreases t.len(),
{
    if t.len() == 0 {
        Seq::empty()
    } else {
        filter_infos(t.drop_last(), sids) + (if sids.contains(t.last().string_id) {
            seq![info_of(t.last())]
        } else {
            Seq::empty()
        })
    }
}

/// Whether one of the strings has this view.
pub fn contains_string(v: &Vec<String>, s: &String) -> (r: bool)
    ensures
        r == crate::text::views(v@).contains(s@),
{
    let ghost gv = crate::text::views(v@);
    let mut i: usize = 0;
    while i < v.len()
        invariant
            0 <= i <= v.len(),
            gv == crate::text::views(v@),
            gv.len() == v@.len(),
            forall|j: int| 0 <= j < i ==> (#[trigger] gv[j]) != s@,
        decreases v.len() - i,
    {
        proof {
            assert(gv[i as int] == v@[i as int]@);
        }
        if v[i] == *s {
            return true;
        }
        i = i + 1;
    }
    false
}

/// `SELECT id, string_id, created_at FROM objects WHERE string_id =
/// ANY($1)`.
#[verifier::loop_isolation(false)]
pub fn get_object_infos(table: &Vec<Object>, string_ids: &Vec<String>) -> (r: Vec<ObjectInfo>)
    ensures
        infos_v(r@) == filter_infos(objects_v(table@), crate::text::views(string_ids@)),
{
    let ghost gt = objects_v(table@);
    let ghost gs = crate::text::views(string_ids@);
    let mut out: Vec<ObjectInfo> = Vec::new();
    let mut i: usize = 0;
    proof {
        assert(gt.take(0) =~= Seq::<DbObjectV>::empty());
        assert(infos_v(out@) =~= filter_infos(gt.take(0), gs));
    }
    while i < table.len()
        invariant
            0 <= i <= table.len(),
            infos_v(out@) == filter_infos(gt.take(i as int), gs),
        decreases table.len() - i,
    {
        proof {
            assert(gt.take(i + 1).drop_last() =~= gt.take(i as int));
            assert(gt.take(i + 1).last() == gt[i as int]);
            assert(gt[i as int] == table@[i as int]@);
        }
        let ghost out0 = infos_v(out@);
        if contains_string(string_ids, &table[i].string_id) {
            let info = ObjectInfo {
                id: table[i].id,
                string_id: table[i].string_id.clone(),
                created_at: table[i].created_at,
            };
            out.push(info);
            proof {
                assert(infos_v(out@) =~= out0.push(info_of(gt[i as int])));
                assert(infos_v(out@) =~= filter_infos(gt.take(i + 1), gs));
            }
        } else {
            proof {
                assert(infos_v(out@) =~= filter_infos(gt.take(i + 1), gs));
            }
        }
        i = i + 1;
    }
    proof {
        assert(gt.take(table@.len() as int) =~= gt);
    }
    out
}

/// `SELECT 1 FROM objects WHERE string_id = $1`, as a presence test.
pub fn object_exists(table: &Vec<Object>, string_id: &String) -> (r: bool)
    ensures
        r == has_obj_sid(objects_v(table@), string_id@),
{
    let ghost gt = objects_v(table@);
    let mut i: usize = 0;
    while i < table.len()
        invariant
            0 <= i <= table.len(),
            gt == objects_v(table@),
            gt.len() == table@.len(),
            forall|j: int| 0 <= j < i ==> (#[trigger] gt[j]).string_id != string_id@,
        decreases table.len() - i,
    {
        proof {
            assert(gt[i as int] == table@[i as int]@);
        }
        if table[i].string_id == *string_id {
            proof {
                assert(has_obj_sid(gt, string_id@));
            }
            return true;
        }
        i = i + 1;
    }
    false
}

pub open spec fn opt_ref_sv(o: Option<&String>) -> Option<Seq<char>> {
    match o {
        Option::None => Option::None,
        Option::Some(s) => Option::Some(s@),
    }
}

/// Whether a delete request selects this row: name and kind always,
/// the namespace only when one was supplied.
pub open spec fn del_match(
    r: DbObjectV,
    ns: Option<Seq<char>>,
    name: Seq<char>,
    kind: Seq<char>,
) -> bool {
    r.name == name && r.kind == kind && match ns {
        Option::None => true,
        Option::Some(n) => r.namespace == n,
    }
}

/// The table with every selected row removed, in table order.
pub open spec fn remove_matching(
    t: Seq<DbObjectV>,
    ns: Option<Seq<char>>,
    name: Seq<char>,
    kind: Seq<char>,
) -> Seq<DbObjectV>
    decreases t.len(),
{
    if t.len() == 0 {
        Seq::empty()
    } else {
        remove_matching(t.drop_last(), ns, name, kind) + (if del_match(t.last(), ns, name, kind) {
            Seq::empty()
        } else {
            seq![t.last()]
        })
    }
}

/// Every row kept by a delete stood in the table.
pub proof fn lemma_remove_matching_elems(
    t: Seq<DbObjectV>,
    ns: Option<Seq<char>>,
    name: Seq<char>,
    kind: Seq<char>,
)
    ensures
        forall|x: DbObjectV|
            #[trigger] remove_matching(t, ns, name, kind).contains(x) ==> t.contains(x),
    decreases t.len(),
{
    if t.len() > 0 {
        lemma_remove_matching_elems(t.drop_last(), ns, name, kind);
        assert forall|x: DbObjectV|
            #[trigger] remove_matching(t, ns, name, kind).contains(x) implies t.contains(x) by {
            let r = remove_matching(t, ns, name, kind);
            let rp = remove_matching(t.drop_last(), ns, name, kind);
            let i = choose|i: int| 0 <= i < r.len() && r[i] == x;
            if i < rp.len() {
                assert(rp.contains(x));
                assert(t.drop_last().contains(x));
                let j = choose|j: int| 0 <= j < t.drop_last().len() && t.drop_last()[j] == x;
                assert(t[j] == x);
            } else {
                assert(x == t.last());
                assert(t[t.len() - 1] == x);
            }
        }
    }
}

/// A delete keeps the table well formed.
pub proof fn lemma_remove_matching_wf(
    t: Seq<DbObjectV>,
    ns: Option<Seq<char>>,
    name: Seq<char>,
    kind: Seq<char>,
)
    requires
        wf_objects(t),
    ensures
        wf_objects(remove_matching(t, ns, name, kind)),
    decreases t.len(),
{
    if t.len() > 0 {
        assert(forall|i: int|
            0 <= i < t.drop_last().len() ==> #[trigger] t.drop_last()[i] == t[i]);
        assert(wf_objects(t.drop_last()));
        lemma_remove_matching_wf(t.drop_last(), ns, name, kind);
        lemma_remove_matching_elems(t.drop_last(), ns, name, kind);
        let rp = remove_matching(t.drop_last(), ns, name, kind);
        let r = remove_matching(t, ns, name, kind);
        if !del_match(t.last(), ns, name, kind) {
            assert(r =~= rp.push(t.last()));
            assert forall|a: int, b: int| 0 <= a < b < r.len() implies (#[trigger] r[a]).id != (
            #[trigger] r[b]).id && r[a].string_id != r[b].string_id by {
                if b < rp.len() {
                    assert(rp[a].id != rp[b].id && rp[a].string_id != rp[b].string_id);
                } else {
                    assert(r[b] == t.last());
                    assert(rp.contains(rp[a]));
                    assert(t.drop_last().contains(rp[a]));
                    let j = choose|j: int|
                        0 <= j < t.drop_last().len() && t.drop_last()[j] == rp[a];
                    assert(t[j] == rp[a]);
                    assert(t[j].id != t[t.len() - 1].id);
                    assert(t[j].string_id != t[t.len() - 1].string_id);
                }
            }
        } else {
            assert(r =~= rp);
        }
    }
}

/// `DELETE FROM objects WHERE name = $1 AND kind = $2 [AND namespace =
/// $3]`.
#[verifier::loop_isolation(false)]
pub fn delete_object(
    table: &mut Vec<Object>,
    namespace: Option<&String>,
    name: &String,
    kind: &String,
)
    ensures
        objects_v(final(table)@) == remove_matching(
            objects_v(old(table)@),
            opt_ref_sv(namespace),
            name@,
            kind@,
        ),
{
    let ghost gt = objects_v(old(table)@);
    let ghost gns = opt_ref_sv(namespace);
    let mut out: Vec<Object> = Vec::new();
    let mut i: usize = 0;
    proof {
        assert(gt.take(0) =~= Seq::<DbObjectV>::empty());
        assert(objects_v(out@) =~= remove_matching(gt.take(0), gns, name@, kind@));
    }
    while i < table.len()
        invariant
            0 <= i <= table.len(),
            table@ == old(table)@,
            objects_v(out@) == remove_matching(gt.take(i as int), gns, name@, kind@),
        decreases table.len() - i,
    {
        proof {
            assert(gt.take(i + 1).drop_last() =~= gt.take(i as int));
            assert(gt.take(i + 1).last() == gt[i as int]);
            assert(gt[i as int] == table@[i as int]@);
        }
        let ghost out0 = objects_v(out@);
        let row = &table[i];
        let selected = row.name == *name && row.kind == *kind && (match namespace {
            Option::None => true,
            Option::Some(n) => row.namespace == *n,
        });
        if !selected {
            let copy = row.duplicate();
            out.push(copy);
            proof {
                assert(objects_v(out@) =~= out0.push(gt[i as int]));
            }
        }
        proof {
            assert(objects_v(out@) =~= remove_matching(gt.take(i + 1), gns, name@, kind@));
        }
        i = i + 1;
    }
    proof {
        assert(gt.take(table@.len() as int) =~= gt);
    }
    *table = out;
}

/// Copies of all schema rows, in table order.
#[verifier::loop_isolation(false)]
pub fn get_all_object_schemas(table: &Vec<ObjectSchema>) -> (r: Vec<ObjectSchema>)
    ensures
        schemas_v(r@) == schemas_v(table@),
{
    let mut out: Vec<ObjectSchema> = Vec::new();
    let mut i: usize = 0;
    while i < table.len()
        invariant
            0 <= i <= table.len(),
            out@.len() == i,
            forall|j: int| 0 <= j < i ==> #[trigger] out@[j]@ == table@[j]@,
        decreases table.len() - i,
    {
        let row = table[i].duplicate();
        out.push(row);
        i = i + 1;
    }
    proof {
        assert(schemas_v(out@) =~= schemas_v(table@));
    }
    out
}

/// Whether one of the listed identifiers equals `x`.
pub fn contains_u128(v: &Vec<u128>, x: u128) -> (r: bool)
    ensures
        r == v@.contains(x),
{
    let mut i: usize = 0;
    while i < v.len()
        invariant
            0 <= i <= v.len(),
            forall|j: int| 0 <= j < i ==> v@[j] != x,
        decreases v.len() - i,
    {
        if v[i] == x {
            return true;
        }
        i = i + 1;
    }
    false
}

/// Whether the relation table holds this edge.
pub fn contains_rel(table: &Vec<Relation>, r: Relation) -> (res: bool)
    ensures
        res == table@.contains(r),
{
    let mut i: usize = 0;
    while i < table.len()
        invariant
            0 <= i <= table.len(),
            forall|j: int| 0 <= j < i ==> table@[j] != r,
        decreases table.len() - i,
    {
        if table[i] == r {
            return true;
        }
        i = i + 1;
    }
    false
}

/// Edges of the listed objects, in table order.
pub open spec fn filter_rels(t: Seq<Relation>, ids: Seq<u128>) -> Seq<Relation>
    decreases t.len(),
{
    if t.len() == 0 {
        Seq::empty()
    } else {
        filter_rels(t.drop_last(), ids) + (if ids.contains(t.last().object_id) {
            seq![t.last()]
        } else {
            Seq::empty()
        })
    }
}

/// `SELECT ... FROM relations WHERE object_id = ANY($1)`.
#[verifier::loop_isolation(false)]
pub fn get_relations_of_objects(table: &Vec<Relation>, object_ids: &Vec<u128>) -> (r: Vec<
    Relation,
>)
    ensures
        r@ == filter_rels(table@, object_ids@),
{
    let ghost gt = table@;
    let mut out: Vec<Relation> = Vec::new();
    let mut i: usize = 0;
    proof {
        assert(gt.take(0) =~= Seq::<Relation>::empty());
        assert(out@ =~= filter_rels(gt.take(0), object_ids@));
    }
    while i < table.len()
        invariant
            0 <= i <= table.len(),
            out@ == filter_rels(gt.take(i as int), object_ids@),
        decreases table.len() - i,
    {
        proof {
            assert(gt.take(i + 1).drop_last() =~= gt.take(i as int));
            assert(gt.take(i + 1).last() == gt[i as int]);
        }
        if contains_u128(object_ids, table[i].object_id) {
            out.push(table[i]);
        }
        proof {
            assert(out@ =~= filter_rels(gt.take(i + 1), object_ids@));
        }
        i = i + 1;
    }
    proof {
        assert(gt.take(table@.len() as int) =~= gt);
    }
    out
}

/// The relation table after inserting a batch with
/// `ON CONFLICT DO NOTHING`: present edges are skipped, new ones are
/// appended in batch order.
pub open spec fn add_missing(t: Seq<Relation>, rels: Seq<Relation>) -> Seq<Relation>
    decreases rels.len(),
{
    if rels.len() == 0 {
        t
    } else {
        add_missing(
            if t.contains(rels.first()) {
                t
            } else {
                t.push(rels.first())
            },
            rels.drop_first(),
        )
    }
}

/// The batch splits at any point.
pub proof fn lemma_add_missing_split(t: Seq<Relation>, rels: Seq<Relation>, i: int)
    requires
        0 <= i <= rels.len(),
    ensures
        add_missing(t, rels) == add_missing(add_missing(t, rels.take(i)), rels.skip(i)),
    decreases i,
{
    if i == 0 {
        assert(rels.take(0) =~= Seq::<Relation>::empty());
        assert(rels.skip(0) =~= rels);
    } else {
        assert(rels.take(i).first() == rels.first());
        let t2 = if t.contains(rels.first()) {
            t
        } else {
            t.push(rels.first())
        };
        lemma_add_missing_split(t2, rels.drop_first(), i - 1);
        assert(rels.take(i).drop_first() =~= rels.drop_first().take(i - 1));
        assert(rels.skip(i) =~= rels.drop_first().skip(i - 1));
    }
}

/// A prefix of the batch first, then one more edge.
pub proof fn lemma_add_missing_snoc(t: Seq<Relation>, rels: Seq<Relation>, i: int)
    requires
        0 <= i < rels.len(),
    ensures
        add_missing(t, rels.take(i + 1)) == {
            let u = add_missing(t, rels.take(i));
            if u.contains(rels[i]) {
                u
            } else {
                u.push(rels[i])
            }
        },
{
    let pre = rels.take(i + 1);
    lemma_add_missing_split(t, pre, i);
    assert(pre.take(i) =~= rels.take(i));
    assert(pre.skip(i) =~= seq![rels[i]]);
    let u = add_missing(t, rels.take(i));
    assert(seq![rels[i]].first() == rels[i]);
    assert(seq![rels[i]].drop_first() =~= Seq::<Relation>::empty());
    let u2 = if u.contains(rels[i]) {
        u
    } else {
        u.push(rels[i])
    };
    assert(add_missing(u, seq![rels[i]]) == add_missing(u2, seq![rels[i]].drop_first()));
}

/// `INSERT INTO relations ... ON CONFLICT DO NOTHING` for a batch.
#[verifier::loop_isolation(false)]
pub fn insert_multiple_relation(table: &mut Vec<Relation>, rels: &Vec<Relation>)
    requires
        wf_relations(old(table)@),
    ensures
        final(table)@ == add_missing(old(table)@, rels@),
        wf_relations(final(table)@),
{
    let ghost t0 = old(table)@;
    let mut i: usize = 0;
    proof {
        assert(rels@.take(0) =~= Seq::<Relation>::empty());
    }
    while i < rels.len()
        invariant
            0 <= i <= rels.len(),
            table@ == add_missing(t0, rels@.take(i as int)),
            wf_relations(table@),
        decreases rels.len() - i,
    {
        proof {
            lemma_add_missing_snoc(t0, rels@, i as int);
        }
        let ghost cur = table@;
        if !contains_rel(table, rels[i]) {
            table.push(rels[i]);
            proof {
                assert forall|a: int, b: int| 0 <= a < b < table@.len() implies (#[trigger] table@[a])
                    != (#[trigger] table@[b]) by {
                    if b < cur.len() {
                        assert(cur[a] != cur[b]);
                    } else {
                        assert(table@[b] == rels@[i as int]);
                        assert(!cur.contains(rels@[i as int]));
                        assert(cur[a] == table@[a]);
                    }
                }
            }
        }
        i = i + 1;
    }
    proof {
        assert(rels@.take(rels@.len() as int) =~= rels@);
    }
}

/// The edges listed as three parallel columns.
pub open spec fn zip3(a: Seq<u128>, b: Seq<u128>, c: Seq<u128>) -> Seq<Relation> {
    Seq::new(
        a.len(),
        |i: int| Relation { object_id: a[i], foreign_object_id: b[i], foreign_key_id: c[i] },
    )
}

/// The relation table with the listed edges removed, in table order.
pub open spec fn remove_rels(t: Seq<Relation>, dels: Seq<Relation>) -> Seq<Relation>
    decreases t.len(),
{
    if t.len() == 0 {
        Seq::empty()
    } else {
        remove_rels(t.drop_last(), dels) + (if dels.contains(t.last()) {
            Seq::empty()
        } else {
            seq![t.last()]
        })
    }
}

/// Whether one of the zipped triples equals `r`.
fn zip_contains(
    object_ids: &Vec<u128>,
    foreign_object_ids: &Vec<u128>,
    foreign_key_ids: &Vec<u128>,
    r: Relation,
) -> (res: bool)
    requires
        object_ids@.len() == foreign_object_ids@.len(),
        object_ids@.len() == foreign_key_ids@.len(),
    ensures
        res == zip3(object_ids@, foreign_object_ids@, foreign_key_ids@).contains(r),
{
    let ghost gz = zip3(object_ids@, foreign_object_ids@, foreign_key_ids@);
    let mut i: usize = 0;
    while i < object_ids.len()
        invariant
            0 <= i <= object_ids.len(),
            gz == zip3(object_ids@, foreign_object_ids@, foreign_key_ids@),
            gz.len() == object_ids@.len(),
            object_ids@.len() == foreign_object_ids@.len(),
            object_ids@.len() == foreign_key_ids@.len(),
            forall|j: int| 0 <= j < i ==> (#[trigger] gz[j]) != r,
        decreases object_ids.len() - i,
    {
        if object_ids[i] == r.object_id && foreign_object_ids[i] == r.foreign_object_id
            && foreign_key_ids[i] == r.foreign_key_id {
            proof {
                assert(gz[i as int] == r);
            }
            return true;
        }
        proof {
            assert(gz[i as int] != r);
        }
        i = i + 1;
    }
    false
}

/// `DELETE FROM relations WHERE (object_id, foreign_object_id,
/// foreign_key_id) IN (SELECT * FROM UNNEST($1, $2, $3))`.
#[verifier::loop_isolation(false)]
pub fn delete_multiple_relations(
    table: &mut Vec<Relation>,
    object_ids: &Vec<u128>,
    foreign_object_ids: &Vec<u128>,
    foreign_key_ids: &Vec<u128>,
) -> (removed: u64)
    requires
        object_ids@.len() == foreign_object_ids@.len(),
        object_ids@.len() == foreign_key_ids@.len(),
        old(table)@.len() <= u64::MAX,
    ensures
        final(table)@ == remove_rels(
            old(table)@,
            zip3(object_ids@, foreign_object_ids@, foreign_key_ids@),
        ),
        removed == old(table)@.len() - final(table)@.len(),
{
    let ghost gt = old(table)@;
    let ghost gz = zip3(object_ids@, foreign_object_ids@, foreign_key_ids@);
    let mut out: Vec<Relation> = Vec::new();
    let mut i: usize = 0;
    proof {
        assert(gt.take(0) =~= Seq::<Relation>::empty());
        assert(out@ =~= remove_rels(gt.take(0), gz));
    }
    while i < table.len()
        invariant
            0 <= i <= table.len(),
            table@ == gt,
            out@ == remove_rels(gt.take(i as int), gz),
            out@.len() <= i,
        decreases table.len() - i,
    {
        proof {
            assert(gt.take(i + 1).drop_last() =~= gt.take(i as int));
            assert(gt.take(i + 1).last() == gt[i as int]);
        }
        if !zip_contains(object_ids, foreign_object_ids, foreign_key_ids, table[i]) {
            out.push(table[i]);
        }
        proof {
            assert(out@ =~= remove_rels(gt.take(i + 1), gz));
        }
        i = i + 1;
    }
    proof {
        assert(gt.take(table@.len() as int) =~= gt);
    }
    let kept = out.len();
    let total = table.len();
    *table = out;
    (total - kept) as u64
}

/// `SELECT ... FROM objects WHERE id = $1`.
#[verifier::loop_isolation(false)]
pub fn get_object<'a>(table: &'a Vec<Object>, id: u128) -> (r: Option<&'a Object>)
    requires
        wf_objects(objects_v(table@)),
    ensures
        match r {
            Some(row) => has_obj_id(objects_v(table@), id) && row@ == objects_v(
                table@,
            )[obj_idx_by_id(objects_v(table@), id)],
            None => !has_obj_id(objects_v(table@), id),
        },
{
    let ghost gt = objects_v(table@);
    let mut i: usize = 0;
    while i < table.len()
        invariant
            0 <= i <= table.len(),
            gt.len() == table@.len(),
            forall|j: int| 0 <= j < i ==> (#[trigger] gt[j]).id != id,
        decreases table.len() - i,
    {
        proof {
            assert(gt[i as int] == table@[i as int]@);
        }
        if table[i].id == id {
            proof {
                assert(gt[i as int].id == id);
                assert(has_obj_id(gt, id));
                let w = obj_idx_by_id(gt, id);
                assert(gt[w].id == id);
                assert(w == i as int);
            }
            return Some(&table[i]);
        }
        i = i + 1;
    }
    None
}

/// Rows whose `id` is among the listed identifiers, in table order.
pub open spec fn filter_objs_by_ids(t: Seq<DbObjectV>, ids: Seq<u128>) -> Seq<DbObjectV>
    decreases t.len(),
{
    if t.len() == 0 {
        Seq::empty()
    } else {
        filter_objs_by_ids(t.drop_last(), ids) + (if ids.contains(t.last().id) {
            seq![t.last()]
        } else {
            Seq::empty()
        })
    }
}

/// `SELECT ... FROM objects WHERE id = ANY($1)`.
#[verifier::loop_isolation(false)]
pub fn get_objects(table: &Vec<Object>, ids: &Vec<u128>) -> (r: Vec<Object>)
    ensures
        objects_v(r@) == filter_objs_by_ids(objects_v(table@), ids@),
{
    let ghost gt = objects_v(table@);
    let mut out: Vec<Object> = Vec::new();
    let mut i: usize = 0;
    proof {
        assert(gt.take(0) =~= Seq::<DbObjectV>::empty());
        assert(objects_v(out@) =~= filter_objs_by_ids(gt.take(0), ids@));
    }
    while i < table.len()
        invariant
            0 <= i <= table.len(),
            objects_v(out@) == filter_objs_by_ids(gt.take(i as int), ids@),
        decreases table.len() - i,
    {
        proof {
            assert(gt.take(i + 1).drop_last() =~= gt.take(i as int));
            assert(gt.take(i + 1).last() == gt[i as int]);
            assert(gt[i as int] == table@[i as int]@);
        }
        let ghost out0 = objects_v(out@);
        if contains_u128(ids, table[i].id) {
            let row = table[i].duplicate();
            out.push(row);
            proof {
                assert(objects_v(out@) =~= out0.push(gt[i as int]));
            }
        }
        proof {
            assert(objects_v(out@) =~= filter_objs_by_ids(gt.take(i + 1), ids@));
        }
        i = i + 1;
    }
    proof {
        assert(gt.take(table@.len() as int) =~= gt);
    }
    out
}

/// `SELECT ... FROM relations WHERE object_id = $1 AND
/// foreign_object_id = $2 AND foreign_key_id = $3`.
pub fn get_relation(
    table: &Vec<Relation>,
    object_id: u128,
    foreign_object_id: u128,
    foreign_key_id: u128,
) -> (r: Option<Relation>)
    ensures
        ({
            let rel = Relation { object_id, foreign_object_id, foreign_key_id };
            match r {
                Some(x) => x == rel && table@.contains(rel),
                None => !table@.contains(rel),
            }
        }),
{
    let rel = Relation { object_id, foreign_object_id, foreign_key_id };
    if contains_rel(table, rel) {
        Some(rel)
    } else {
        None
    }
}

/// `INSERT INTO relations ...` for one edge; the composite primary key
/// turns a duplicate into an error and leaves the table as it is.
pub fn insert_relation(table: &mut Vec<Relation>, relation: Relation) -> (r: Result<
    (),
    DawnStoreError,
>)
    requires
        wf_relations(old(table)@),
    ensures
        wf_relations(final(table)@),
        match r {
            Ok(()) => !old(table)@.contains(relation) && final(table)@ == old(table)@.push(
                relation,
            ),
            Err(e) => old(table)@.contains(relation) && final(table)@ == old(table)@ && e@
                == ErrV::DatabaseError(Seq::empty()),
        },
{
    let ghost t0 = table@;
    if contains_rel(table, relation) {
        return Err(DawnStoreError::DatabaseError(String::new()));
    }
    table.push(relation);
    proof {
        assert forall|a: int, b: int| 0 <= a < b < table@.len() implies (#[trigger] table@[a]) != (
        #[trigger] table@[b]) by {
            if b == t0.len() {
                assert(table@[b] == relation);
                assert(table@[a] == t0[a]);
                assert(!t0.contains(relation));
            } else {
                assert(t0[a] != t0[b]);
            }
        }
    }
    Ok(())
}

/// `DELETE FROM relations WHERE object_id = $1 AND foreign_object_id =
/// $2 AND foreign_key_id = $3`, reporting the number of removed rows.
#[verifier::loop_isolation(false)]
pub fn delete_relation(
    table: &mut Vec<Relation>,
    object_id: u128,
    foreign_object_id: u128,
    foreign_key_id: u128,
) -> (removed: u64)
    requires
        old(table)@.len() <= u64::MAX,
    ensures
        final(table)@ == remove_rels(
            old(table)@,
            seq![Relation { object_id, foreign_object_id, foreign_key_id }],
        ),
        removed == old(table)@.len() - final(table)@.len(),
{
    let ghost gt = old(table)@;
    let ghost dels = seq![Relation { object_id, foreign_object_id, foreign_key_id }];
    let rel = Relation { object_id, foreign_object_id, foreign_key_id };
    proof {
        assert(dels[0] == rel);
        assert(forall|x: Relation| dels.contains(x) <==> x == rel) by {
            assert(dels[0] == rel);
        }
    }
    let mut out: Vec<Relation> = Vec::new();
    let mut i: usize = 0;
    proof {
        assert(gt.take(0) =~= Seq::<Relation>::empty());
        assert(out@ =~= remove_rels(gt.take(0), dels));
    }
    while i < table.len()
        invariant
            0 <= i <= table.len(),
            table@ == gt,
            out@ == remove_rels(gt.take(i as int), dels),
            out@.len() <= i,
        decreases table.len() - i,
    {
        proof {
            assert(gt.take(i + 1).drop_last() =~= gt.take(i as int));
            assert(gt.take(i + 1).last() == gt[i as int]);
        }
        if !(table[i] == rel) {
            out.push(table[i]);
        }
        proof {
            assert(out@ =~= remove_rels(gt.take(i + 1), dels));
        }
        i = i + 1;
    }
    proof {
        assert(gt.take(table@.len() as int) =~= gt);
    }
    let kept = out.len();
    let total = table.len();
    *table = out;
    (total - kept) as u64
}

/// The schema table with the row carrying this `id` removed.
pub open spec fn remove_schema(s: Seq<ObjectSchemaV>, id: u128) -> Seq<ObjectSchemaV>
    decreases s.len(),
{
    if s.len() == 0 {
        Seq::empty()
    } else {
        remove_schema(s.drop_last(), id) + (if s.last().id == id {
            Seq::empty()
        } else {
            seq![s.last()]
        })
    }
}

/// Every schema row kept by a delete stood in the table.
pub proof fn lemma_remove_schema_elems(s: Seq<ObjectSchemaV>, id: u128)
    ensures
        forall|x: ObjectSchemaV| #[trigger] remove_schema(s, id).contains(x) ==> s.contains(x),
    decreases s.len(),
{
    if s.len() > 0 {
        lemma_remove_schema_elems(s.drop_last(), id);
        assert forall|x: ObjectSchemaV| #[trigger] remove_schema(s, id).contains(x)
            implies s.contains(x) by {
            let r = remove_schema(s, id);
            let rp = remove_schema(s.drop_last(), id);
            let i = choose|i: int| 0 <= i < r.len() && r[i] == x;
            if i < rp.len() {
                assert(rp.contains(x));
                assert(s.drop_last().contains(x));
                let j = choose|j: int| 0 <= j < s.drop_last().len() && s.drop_last()[j] == x;
                assert(s[j] == x);
            } else {
                assert(x == s.last());
                assert(s[s.len() - 1] == x);
            }
        }
    }
}

/// Removing a schema row keeps the table well formed.
pub proof fn lemma_remove_schema_wf(s: Seq<ObjectSchemaV>, id: u128)
    requires
        wf_schemas(s),
    ensures
        wf_schemas(remove_schema(s, id)),
    decreases s.len(),
{
    if s.len() > 0 {
        assert(forall|i: int|
            0 <= i < s.drop_last().len() ==> #[trigger] s.drop_last()[i] == s[i]);
        assert(wf_schemas(s.drop_last()));
        lemma_remove_schema_wf(s.drop_last(), id);
        lemma_remove_schema_elems(s.drop_last(), id);
        let rp = remove_schema(s.drop_last(), id);
        let r = remove_schema(s, id);
        if s.last().id != id {
            assert(r =~= rp.push(s.last()));
            assert forall|a: int, b: int| 0 <= a < b < r.len() implies !((#[trigger] r[a]).api_version
                == (#[trigger] r[b]).api_version && r[a].kind == r[b].kind) by {
                if b < rp.len() {
                    assert(!(rp[a].api_version == rp[b].api_version && rp[a].kind == rp[b].kind));
                } else {
                    assert(r[b] == s.last());
                    assert(rp.contains(rp[a]));
                    assert(s.drop_last().contains(rp[a]));
                    let j = choose|j: int|
                        0 <= j < s.drop_last().len() && s.drop_last()[j] == rp[a];
                    assert(s[j] == rp[a]);
                    assert(!(s[j].api_version == s[s.len() - 1].api_version && s[j].kind == s[s.len()
                        - 1].kind));
                }
            }
        } else {
            assert(r =~= rp);
        }
    }
}

/// `DELETE FROM object_schemas WHERE id = $1`.
#[verifier::loop_isolation(false)]
pub fn delete_object_schema(table: &mut Vec<ObjectSchema>, id: u128)
    requires
        wf_schemas(schemas_v(old(table)@)),
    ensures
        schemas_v(final(table)@) == remove_schema(schemas_v(old(table)@), id),
        wf_schemas(schemas_v(final(table)@)),
{
    let ghost gt = schemas_v(old(table)@);
    let mut out: Vec<ObjectSchema> = Vec::new();
    let mut i: usize = 0;
    proof {
        assert(gt.take(0) =~= Seq::<ObjectSchemaV>::empty());
        assert(schemas_v(out@) =~= remove_schema(gt.take(0), id));
    }
    while i < table.len()
        invariant
            0 <= i <= table.len(),
            table@ == old(table)@,
            schemas_v(out@) == remove_schema(gt.take(i as int), id),
        decreases table.len() - i,
    {
        proof {
            assert(gt.take(i + 1).drop_last() =~= gt.take(i as int));
            assert(gt.take(i + 1).last() == gt[i as int]);
            assert(gt[i as int] == table@[i as int]@);
        }
        let ghost out0 = schemas_v(out@);
        if !(table[i].id == id) {
            let row = table[i].duplicate();
            out.push(row);
            proof {
                assert(schemas_v(out@) =~= out0.push(gt[i as int]));
            }
        }
        proof {
            assert(schemas_v(out@) =~= remove_schema(gt.take(i + 1), id));
        }
        i = i + 1;
    }
    proof {
        assert(gt.take(table@.len() as int) =~= gt);
        lemma_remove_schema_wf(gt, id);
    }
    *table = out;
}

/// `INSERT INTO foreign_key_constraints ...` for one row.
pub fn insert_foreign_key_constraints(table: &mut Vec<ForeignKeyConstraint>, row: &ForeignKeyConstraint)
    ensures
        fkcs_v(final(table)@) == fkcs_v(old(table)@).push(row@),
{
    let ghost t0 = fkcs_v(table@);
    let copy = row.duplicate();
    table.push(copy);
    proof {
        assert(fkcs_v(table@) =~= t0.push(row@));
    }
}

/// The constraint table with every row of this `id` rewritten to the
/// given columns.
pub open spec fn rewrite_fkcs(s: Seq<ForeignKeyConstraintV>, row: ForeignKeyConstraintV) -> Seq<
    ForeignKeyConstraintV,
> {
    s.map_values(
        |r: ForeignKeyConstraintV|
            if r.id == row.id {
                row
            } else {
                r
            },
    )
}

pub open spec fn has_fkc_id(s: Seq<ForeignKeyConstraintV>, id: u128) -> bool {
    exists|i: int| 0 <= i < s.len() && (#[trigger] s[i]).id == id
}

/// `UPDATE foreign_key_constraints SET ... WHERE id = $1`, reporting
/// whether a row was rewritten.
#[verifier::loop_isolation(false)]
pub fn update_foreign_key_constraints(
    table: &mut Vec<ForeignKeyConstraint>,
    row: &ForeignKeyConstraint,
) -> (touched: bool)
    ensures
        fkcs_v(final(table)@) == rewrite_fkcs(fkcs_v(old(table)@), row@),
        touched == has_fkc_id(fkcs_v(old(table)@), row@.id),
{
    let ghost gt = fkcs_v(old(table)@);
    let mut touched = false;
    let mut i: usize = 0;
    while i < table.len()
        invariant
            0 <= i <= table.len(),
            table@.len() == old(table)@.len(),
            gt.len() == old(table)@.len(),
            forall|j: int|
                i <= j < table@.len() ==> #[trigger] table@[j]@ == gt[j],
            forall|j: int| 0 <= j < i ==> #[trigger] table@[j]@ == rewrite_fkcs(gt, row@)[j],
            touched == (exists|j: int| 0 <= j < i && (#[trigger] gt[j]).id == row@.id),
        decreases table.len() - i,
    {
        if table[i].id == row.id {
            proof {
                assert(table@[i as int]@ == gt[i as int]);
                assert(gt[i as int].id == row@.id);
            }
            let copy = row.duplicate();
            table[i] = copy;
            touched = true;
        }
        proof {
            assert(table@[i as int]@ == rewrite_fkcs(gt, row@)[i as int]);
        }
        i = i + 1;
    }
    proof {
        assert(fkcs_v(table@) =~= rewrite_fkcs(gt, row@));
        assert(touched == has_fkc_id(gt, row@.id));
    }
    touched
}

/// `DELETE FROM foreign_key_constraints WHERE id = $1`, reporting
/// whether a row was removed.
pub open spec fn remove_fkc(s: Seq<ForeignKeyConstraintV>, id: u128) -> Seq<ForeignKeyConstraintV>
    decreases s.len(),
{
    if s.len() == 0 {
        Seq::empty()
    } else {
        remove_fkc(s.drop_last(), id) + (if s.last().id == id {
            Seq::empty()
        } else {
            seq![s.last()]
        })
    }
}

#[verifier::loop_isolation(false)]
pub fn delete_foreign_key_constraints(table: &mut Vec<ForeignKeyConstraint>, id: u128) -> (removed:
    bool)
    ensures
        fkcs_v(final(table)@) == remove_fkc(fkcs_v(old(table)@), id),
        removed == (final(table)@.len() < old(table)@.len()),
{
    let ghost gt = fkcs_v(old(table)@);
    let mut out: Vec<ForeignKeyConstraint> = Vec::new();
    let mut i: usize = 0;
    proof {
        assert(gt.take(0) =~= Seq::<ForeignKeyConstraintV>::empty());
        assert(fkcs_v(out@) =~= remove_fkc(gt.take(0), id));
    }
    while i < table.len()
        invariant
            0 <= i <= table.len(),
            table@ == old(table)@,
            gt.len() == table@.len(),
            out@.len() <= i,
            fkcs_v(out@) == remove_fkc(gt.take(i as int), id),
        decreases table.len() - i,
    {
        proof {
            assert(gt.take(i + 1).drop_last() =~= gt.take(i as int));
            assert(gt.take(i + 1).last() == gt[i as int]);
            assert(gt[i as int] == table@[i as int]@);
        }
        let ghost out0 = fkcs_v(out@);
        if !(table[i].id == id) {
            let row = table[i].duplicate();
            out.push(row);
            proof {
                assert(fkcs_v(out@) =~= out0.push(gt[i as int]));
            }
        }
        proof {
            assert(fkcs_v(out@) =~= remove_fkc(gt.take(i + 1), id));
        }
        i = i + 1;
    }
    proof {
        assert(gt.take(table@.len() as int) =~= gt);
    }
    let kept = out.len();
    let total = table.len();
    *table = out;
    kept < total
}

/// One plain insert: both unique indexes of the object table reject a
/// duplicate.
pub open spec fn insert_one(t: Seq<DbObjectV>, item: DbObjectV) -> Result<Seq<DbObjectV>, ()> {
    if has_obj_id(t, item.id) || has_obj_sid(t, item.string_id) {
        Err(())
    } else {
        Ok(t.push(item))
    }
}

/// A batch of plain inserts, row by row in batch order.
pub open spec fn insert_all(t: Seq<DbObjectV>, items: Seq<DbObjectV>) -> Result<
    Seq<DbObjectV>,
    (),
>
    decreases items.len(),
{
    if items.len() == 0 {
        Ok(t)
    } else {
        match insert_one(t, items.first()) {
            Ok(t2) => insert_all(t2, items.drop_first()),
            Err(e) => Err(e),
        }
    }
}

/// The insert batch splits at any point.
pub proof fn lemma_insert_all_split(t: Seq<DbObjectV>, items: Seq<DbObjectV>, i: int)
    requires
        0 <= i <= items.len(),
    ensures
        insert_all(t, items) == match insert_all(t, items.take(i)) {
            Ok(u) => insert_all(u, items.skip(i)),
            Err(e) => Err(e),
        },
    decreases i,
{
    if i == 0 {
        assert(items.take(0) =~= Seq::<DbObjectV>::empty());
        assert(insert_all(t, items.take(0)) == Ok::<_, ()>(t));
        assert(items.skip(0) =~= items);
    } else {
        assert(items.len() > 0);
        assert(items.take(i).len() > 0);
        assert(items.take(i).first() == items.first());
        match insert_one(t, items.first()) {
            Ok(t2) => {
                lemma_insert_all_split(t2, items.drop_first(), i - 1);
                assert(items.take(i).drop_first() =~= items.drop_first().take(i - 1));
                assert(items.skip(i) =~= items.drop_first().skip(i - 1));
                assert(insert_all(t, items) == insert_all(t2, items.drop_first()));
                assert(insert_all(t, items.take(i)) == insert_all(t2, items.take(i).drop_first()));
            },
            Err(_) => {},
        }
    }
}

/// A prefix of the insert batch first, then one more row.
pub proof fn lemma_insert_all_snoc(t: Seq<DbObjectV>, items: Seq<DbObjectV>, i: int)
    requires
        0 <= i < items.len(),
    ensures
        insert_all(t, items.take(i + 1)) == match insert_all(t, items.take(i)) {
            Ok(u) => insert_one(u, items[i]),
            Err(e) => Err(e),
        },
{
    let pre = items.take(i + 1);
    lemma_insert_all_split(t, pre, i);
    assert(pre.take(i) =~= items.take(i));
    assert(pre.skip(i) =~= seq![items[i]]);
    match insert_all(t, items.take(i)) {
        Ok(u) => {
            assert(seq![items[i]].first() == items[i]);
            assert(seq![items[i]].drop_first() =~= Seq::<DbObjectV>::empty());
            match insert_one(u, items[i]) {
                Ok(t2) => {
                    assert(insert_all(u, seq![items[i]]) == insert_all(
                        t2,
                        seq![items[i]].drop_first(),
                    ));
                    assert(insert_all(t2, seq![items[i]].drop_first()) == Ok::<_, ()>(t2));
                },
                Err(_) => {},
            }
        },
        Err(_) => {},
    }
}

/// `INSERT INTO objects ...` for one row; either unique index turns a
/// duplicate into an error and leaves the table as it is.
#[verifier::loop_isolation(false)]
pub fn insert_object(table: &mut Vec<Object>, item: &Object) -> (r: Result<(), DawnStoreError>)
    requires
        wf_objects(objects_v(old(table)@)),
    ensures
        wf_objects(objects_v(final(table)@)),
        match r {
            Ok(()) => insert_one(objects_v(old(table)@), item@) == Ok::<_, ()>(
                objects_v(final(table)@),
            ),
            Err(e) => insert_one(objects_v(old(table)@), item@) is Err && final(table)@ == old(
                table,
            )@ && e@ == ErrV::DatabaseError(Seq::empty()),
        },
{
    let ghost gt = objects_v(table@);
    let mut i: usize = 0;
    while i < table.len()
        invariant
            0 <= i <= table.len(),
            gt == objects_v(table@),
            gt.len() == table@.len(),
            forall|j: int|
                0 <= j < i ==> (#[trigger] gt[j]).id != item@.id && gt[j].string_id
                    != item@.string_id,
        decreases table.len() - i,
    {
        proof {
            assert(gt[i as int] == table@[i as int]@);
        }
        if table[i].id == item.id || table[i].string_id == item.string_id {
            proof {
                assert(has_obj_id(gt, item@.id) || has_obj_sid(gt, item@.string_id));
            }
            return Err(DawnStoreError::DatabaseError(String::new()));
        }
        i = i + 1;
    }
    proof {
        assert(!has_obj_id(gt, item@.id));
        assert(!has_obj_sid(gt, item@.string_id));
    }
    let copy = item.duplicate();
    table.push(copy);
    proof {
        assert(objects_v(table@) =~= gt.push(item@));
        assert forall|a: int, b: int| 0 <= a < b < objects_v(table@).len() implies (
        #[trigger] objects_v(table@)[a]).id != (#[trigger] objects_v(table@)[b]).id && objects_v(
            table@,
        )[a].string_id != objects_v(table@)[b].string_id by {
            if b == gt.len() {
                assert(objects_v(table@)[b] == item@);
                assert(objects_v(table@)[a] == gt[a]);
            } else {
                assert(gt[a].id != gt[b].id && gt[a].string_id != gt[b].string_id);
            }
        }
    }
    Ok(())
}

/// `INSERT INTO objects ...` for a batch, run as the single statement
/// it stands for: on an error the table is left exactly as it was.
pub fn insert_multiple_objects(table: &mut Vec<Object>, items: &Vec<Object>) -> (r: Result<
    (),
    DawnStoreError,
>)
    requires
        wf_objects(objects_v(old(table)@)),
    ensures
        match r {
            Ok(()) => insert_all(objects_v(old(table)@), objects_v(items@)) == Ok::<_, ()>(
                objects_v(final(table)@),
            ) && wf_objects(objects_v(final(table)@)),
            Err(e) => insert_all(objects_v(old(table)@), objects_v(items@)) is Err && e@
                == ErrV::DatabaseError(Seq::empty()) && final(table)@ == old(table)@,
        },
{
    let mut work = copy_objects(table);
    match insert_rows_in_place(&mut work, items) {
        Ok(()) => {
            *table = work;
            Ok(())
        },
        Err(e) => Err(e),
    }
}

/// The row-by-row work of the batch insert, on a working table.
#[verifier::loop_isolation(false)]
fn insert_rows_in_place(table: &mut Vec<Object>, items: &Vec<Object>) -> (r: Result<
    (),
    DawnStoreError,
>)
    requires
        wf_objects(objects_v(old(table)@)),
    ensures
        match r {
            Ok(()) => insert_all(objects_v(old(table)@), objects_v(items@)) == Ok::<_, ()>(
                objects_v(final(table)@),
            ) && wf_objects(objects_v(final(table)@)),
            Err(e) => insert_all(objects_v(old(table)@), objects_v(items@)) is Err && e@
                == ErrV::DatabaseError(Seq::empty()),
        },
{
    let ghost t0 = objects_v(old(table)@);
    let ghost gi = objects_v(items@);
    let mut i: usize = 0;
    proof {
        assert(gi.take(0) =~= Seq::<DbObjectV>::empty());
    }
    while i < items.len()
        invariant
            0 <= i <= items.len(),
            gi.len() == items@.len(),
            gi == objects_v(items@),
            insert_all(t0, gi.take(i as int)) == Ok::<_, ()>(objects_v(table@)),
            wf_objects(objects_v(table@)),
        decreases items.len() - i,
    {
        proof {
            lemma_insert_all_snoc(t0, gi, i as int);
            assert(gi[i as int] == items@[i as int]@);
        }
        let ghost cur = objects_v(table@);
        match insert_object(table, &items[i]) {
            Ok(()) => {},
            Err(e) => {
                proof {
                    assert(insert_one(cur, gi[i as int]) is Err);
                    lemma_insert_all_split(t0, gi, i as int);
                    assert(gi.skip(i as int).first() == gi[i as int]);
                    assert(insert_all(t0, gi) is Err);
                }
                return Err(e);
            },
        }
        i = i + 1;
    }
    proof {
        assert(gi.take(items@.len() as int) =~= gi);
    }
    Ok(())
}

/// The object table with the row of this `id` rewritten: every column
/// but `id`, `string_id` and `created_at` is taken from the incoming
/// row.
pub open spec fn rewrite_obj(cur: DbObjectV, item: DbObjectV) -> DbObjectV {
    DbObjectV {
        id: cur.id,
        string_id: cur.string_id,
        created_at: cur.created_at,
        owners: cur.owners,
        ..item
    }
}

pub open spec fn update_obj_spec(t: Seq<DbObjectV>, item: DbObjectV) -> Seq<DbObjectV> {
    t.map_values(
        |r: DbObjectV|
            if r.id == item.id {
                rewrite_obj(r, item)
            } else {
                r
            },
    )
}

/// `UPDATE objects SET api_version = ..., name = ..., kind = ...,
/// updated_at = ..., namespace = ..., annotations = ..., labels = ...,
/// spec = ... WHERE id = $1`.
#[verifier::loop_isolation(false)]
pub fn update_object(table: &mut Vec<Object>, item: &Object)
    requires
        wf_objects(objects_v(old(table)@)),
    ensures
        objects_v(final(table)@) == update_obj_spec(objects_v(old(table)@), item@),
        wf_objects(objects_v(final(table)@)),
{
    let ghost gt = objects_v(old(table)@);
    let mut i: usize = 0;
    while i < table.len()
        invariant
            0 <= i <= table.len(),
            table@.len() == old(table)@.len(),
            gt.len() == old(table)@.len(),
            forall|j: int| i <= j < table@.len() ==> #[trigger] table@[j]@ == gt[j],
            forall|j: int| 0 <= j < i ==> #[trigger] table@[j]@ == update_obj_spec(gt, item@)[j],
        decreases table.len() - i,
    {
        if table[i].id == item.id {
            let merged = Object {
                id: table[i].id,
                string_id: table[i].string_id.clone(),
                created_at: table[i].created_at,
                api_version: item.api_version.clone(),
                name: item.name.clone(),
                kind: item.kind.clone(),
                updated_at: item.updated_at,
                namespace: item.namespace.clone(),
                annotations: crate::models::clone_smap(&item.annotations),
                labels: crate::models::clone_smap(&item.labels),
                owners: Vec::new(),
                spec: crate::json::deep_copy(&item.spec),
            };
            proof {
                assert(merged@ == DbObjectV { owners: Seq::empty(), ..rewrite_obj(gt[i as int], item@) });
            }
            let merged = Object { owners: owners_copy(&table[i].owners), ..merged };
            proof {
                assert(gt[i as int].owners == table@[i as int]@.owners);
                assert(merged@ == rewrite_obj(gt[i as int], item@));
            }
            table[i] = merged;
        }
        proof {
            assert(table@[i as int]@ == update_obj_spec(gt, item@)[i as int]);
        }
        i = i + 1;
    }
    proof {
        assert(objects_v(table@) =~= update_obj_spec(gt, item@));
        let t2 = objects_v(table@);
        assert(forall|j: int| 0 <= j < t2.len() ==> (#[trigger] t2[j]).id == gt[j].id);
        assert(forall|j: int|
            0 <= j < t2.len() ==> (#[trigger] t2[j]).string_id == gt[j].string_id);
        assert(wf_objects(t2));
    }
}

/// One row of a batch update: a missing `id` touches nothing; a
/// `string_id` moved onto another row is a unique violation.
pub open spec fn update_m_one(t: Seq<DbObjectV>, item: DbObjectV) -> Result<Seq<DbObjectV>, ()> {
    if has_obj_id(t, item.id) {
        let j = obj_idx_by_id(t, item.id);
        if sid_clash_elsewhere(t, item.string_id, j) {
            Err(())
        } else {
            Ok(
                t.update(
                    j,
                    DbObjectV { id: t[j].id, created_at: t[j].created_at, owners: t[j].owners, ..item },
                ),
            )
        }
    } else {
        Ok(t)
    }
}

/// The batch update, row by row in batch order.
pub open spec fn update_all_spec(t: Seq<DbObjectV>, items: Seq<DbObjectV>) -> Result<
    Seq<DbObjectV>,
    (),
>
    decreases items.len(),
{
    if items.len() == 0 {
        Ok(t)
    } else {
        match update_m_one(t, items.first()) {
            Ok(t2) => update_all_spec(t2, items.drop_first()),
            Err(e) => Err(e),
        }
    }
}

/// The update batch splits at any point.
pub proof fn lemma_update_all_split(t: Seq<DbObjectV>, items: Seq<DbObjectV>, i: int)
    requires
        0 <= i <= items.len(),
    ensures
        update_all_spec(t, items) == match update_all_spec(t, items.take(i)) {
            Ok(u) => update_all_spec(u, items.skip(i)),
            Err(e) => Err(e),
        },
    decreases i,
{
    if i == 0 {
        assert(items.take(0) =~= Seq::<DbObjectV>::empty());
        assert(update_all_spec(t, items.take(0)) == Ok::<_, ()>(t));
        assert(items.skip(0) =~= items);
    } else {
        assert(items.take(i).first() == items.first());
        match update_m_one(t, items.first()) {
            Ok(t2) => {
                lemma_update_all_split(t2, items.drop_first(), i - 1);
                assert(items.take(i).drop_first() =~= items.drop_first().take(i - 1));
                assert(items.skip(i) =~= items.drop_first().skip(i - 1));
                assert(update_all_spec(t, items) == update_all_spec(t2, items.drop_first()));
                assert(update_all_spec(t, items.take(i)) == update_all_spec(
                    t2,
                    items.take(i).drop_first(),
                ));
            },
            Err(_) => {},
        }
    }
}

/// A prefix of the update batch first, then one more row.
pub proof fn lemma_update_all_snoc(t: Seq<DbObjectV>, items: Seq<DbObjectV>, i: int)
    requires
        0 <= i < items.len(),
    ensures
        update_all_spec(t, items.take(i + 1)) == match update_all_spec(t, items.take(i)) {
            Ok(u) => update_m_one(u, items[i]),
            Err(e) => Err(e),
        },
{
    let pre = items.take(i + 1);
    lemma_update_all_split(t, pre, i);
    assert(pre.take(i) =~= items.take(i));
    assert(pre.skip(i) =~= seq![items[i]]);
    match update_all_spec(t, items.take(i)) {
        Ok(u) => {
            assert(seq![items[i]].first() == items[i]);
            assert(seq![items[i]].drop_first() =~= Seq::<DbObjectV>::empty());
            match update_m_one(u, items[i]) {
                Ok(t2) => {
                    assert(update_all_spec(u, seq![items[i]]) == update_all_spec(
                        t2,
                        seq![items[i]].drop_first(),
                    ));
                    assert(update_all_spec(t2, seq![items[i]].drop_first()) == Ok::<_, ()>(t2));
                },
                Err(_) => {},
            }
        },
        Err(_) => {},
    }
}

/// `UPDATE objects AS o SET ... FROM (VALUES ...) AS v WHERE o.id =
/// v.id` for a batch, run as the single statement it stands for: on an
/// error the table is left exactly as it was.
pub fn update_multiple_objects(table: &mut Vec<Object>, items: &Vec<Object>) -> (r: Result<
    (),
    DawnStoreError,
>)
    requires
        wf_objects(objects_v(old(table)@)),
    ensures
        match r {
            Ok(()) => update_all_spec(objects_v(old(table)@), objects_v(items@)) == Ok::<_, ()>(
                objects_v(final(table)@),
            ) && wf_objects(objects_v(final(table)@)),
            Err(e) => update_all_spec(objects_v(old(table)@), objects_v(items@)) is Err && e@
                == ErrV::DatabaseError(Seq::empty()) && final(table)@ == old(table)@,
        },
{
    let mut work = copy_objects(table);
    match update_rows_in_place(&mut work, items) {
        Ok(()) => {
            *table = work;
            Ok(())
        },
        Err(e) => Err(e),
    }
}

/// The row-by-row work of the batch update, on a working table.
#[verifier::loop_isolation(false)]
fn update_rows_in_place(table: &mut Vec<Object>, items: &Vec<Object>) -> (r: Result<
    (),
    DawnStoreError,
>)
    requires
        wf_objects(objects_v(old(table)@)),
    ensures
        match r {
            Ok(()) => update_all_spec(objects_v(old(table)@), objects_v(items@)) == Ok::<_, ()>(
                objects_v(final(table)@),
            ) && wf_objects(objects_v(final(table)@)),
            Err(e) => update_all_spec(objects_v(old(table)@), objects_v(items@)) is Err && e@
                == ErrV::DatabaseError(Seq::empty()),
        },
{
    let ghost t0 = objects_v(old(table)@);
    let ghost gi = objects_v(items@);
    let mut i: usize = 0;
    proof {
        assert(gi.take(0) =~= Seq::<DbObjectV>::empty());
    }
    while i < items.len()
        invariant
            0 <= i <= items.len(),
            gi.len() == items@.len(),
            gi == objects_v(items@),
            update_all_spec(t0, gi.take(i as int)) == Ok::<_, ()>(objects_v(table@)),
            wf_objects(objects_v(table@)),
        decreases items.len() - i,
    {
        let ghost cur = objects_v(table@);
        proof {
            lemma_update_all_snoc(t0, gi, i as int);
            assert(gi[i as int] == items@[i as int]@);
        }
        let item = &items[i];
        // find the row with the same id
        let mut j: usize = 0;
        let mut found: bool = false;
        while j < table.len() && !found
            invariant
                0 <= j <= table.len(),
                cur == objects_v(table@),
                cur.len() == table@.len(),
                !found ==> forall|k: int| 0 <= k < j ==> (#[trigger] cur[k]).id != item@.id,
                found ==> j < table@.len() && cur[j as int].id == item@.id,
            decreases table.len() - j + (if found { 0int } else { 1int }),
        {
            proof {
                assert(cur[j as int] == table@[j as int]@);
            }
            if table[j].id == item.id {
                found = true;
            } else {
                j = j + 1;
            }
        }
        if found {
            proof {
                assert(has_obj_id(cur, item@.id));
                let w = obj_idx_by_id(cur, item@.id);
                assert(cur[w].id == item@.id);
                assert(w == j as int);
            }
            // a changed string_id must not collide with any other row
            let mut k: usize = 0;
            while k < table.len()
                invariant
                    0 <= k <= table.len(),
                    cur == objects_v(table@),
                    cur.len() == table@.len(),
                    j < table@.len(),
                    forall|m: int|
                        0 <= m < k && m != j ==> (#[trigger] cur[m]).string_id != item@.string_id,
                decreases table.len() - k,
            {
                proof {
                    assert(cur[k as int] == table@[k as int]@);
                }
                if k != j && table[k].string_id == item.string_id {
                    proof {
                        assert(sid_clash_elsewhere(cur, item@.string_id, j as int));
                        assert(update_m_one(cur, gi[i as int]) is Err);
                        lemma_update_all_split(t0, gi, i as int);
                        assert(gi.skip(i as int).first() == gi[i as int]);
                        assert(update_all_spec(t0, gi) is Err);
                    }
                    return Err(DawnStoreError::DatabaseError(String::new()));
                }
                k = k + 1;
            }
            proof {
                assert(!sid_clash_elsewhere(cur, item@.string_id, j as int));
            }
            let merged = Object {
                id: table[j].id,
                created_at: table[j].created_at,
                string_id: item.string_id.clone(),
                api_version: item.api_version.clone(),
                name: item.name.clone(),
                kind: item.kind.clone(),
                updated_at: item.updated_at,
                namespace: item.namespace.clone(),
                annotations: crate::models::clone_smap(&item.annotations),
                labels: crate::models::clone_smap(&item.labels),
                owners: Vec::new(),
                spec: crate::json::deep_copy(&item.spec),
            };
            let ghost mrow = DbObjectV {
                id: cur[j as int].id,
                created_at: cur[j as int].created_at,
                owners: cur[j as int].owners,
                ..item@
            };
            proof {
                assert(merged@ == DbObjectV { owners: Seq::empty(), ..mrow });
            }
            let merged = Object { owners: owners_copy(&table[j].owners), ..merged };
            proof {
                assert(merged@ == mrow);
            }
            table[j] = merged;
            proof {
                assert(objects_v(table@) =~= cur.update(j as int, mrow));
                assert(update_m_one(cur, gi[i as int]) == Ok::<_, ()>(objects_v(table@)));
                assert(update_all_spec(t0, gi.take(i + 1)) == Ok::<_, ()>(objects_v(table@)));
                assert forall|a: int, b: int|
                    0 <= a < b < objects_v(table@).len() implies (#[trigger] objects_v(
                    table@,
                )[a]).id != (#[trigger] objects_v(table@)[b]).id by {
                    assert(cur[a].id == objects_v(table@)[a].id || a == j);
                    assert(cur[b].id == objects_v(table@)[b].id || b == j);
                }
                assert forall|a: int, b: int|
                    0 <= a < b < objects_v(table@).len() implies (#[trigger] objects_v(
                    table@,
                )[a]).string_id != (#[trigger] objects_v(table@)[b]).string_id by {
                    if a != j && b != j {
                        assert(cur[a].string_id == objects_v(table@)[a].string_id);
                        assert(cur[b].string_id == objects_v(table@)[b].string_id);
                    }
                }
                assert(wf_objects(objects_v(table@)));
            }
        } else {
            proof {
                assert(!has_obj_id(cur, item@.id));
                assert(update_m_one(cur, gi[i as int]) == Ok::<_, ()>(cur));
                assert(update_all_spec(t0, gi.take(i + 1)) == Ok::<_, ()>(objects_v(table@)));
            }
        }
        i = i + 1;
    }
    proof {
        assert(gi.take(items@.len() as int) =~= gi);
    }
    Ok(())
}

/// Copies of all object rows, with the same views.
pub fn copy_objects(table: &Vec<Object>) -> (r: Vec<Object>)
    ensures
        objects_v(r@) == objects_v(table@),
{
    let mut out: Vec<Object> = Vec::new();
    let mut i: usize = 0;
    while i < table.len()
        invariant
            0 <= i <= table.len(),
            out@.len() == i,
            forall|j: int| 0 <= j < i ==> #[trigger] out@[j]@ == table@[j]@,
        decreases table.len() - i,
    {
        let row = table[i].duplicate();
        out.push(row);
        i = i + 1;
    }
    proof {
        assert(objects_v(out@) =~= objects_v(table@));
    }
    out
}

/// Copy of an owner list.
pub fn owners_copy(v: &Vec<u128>) -> (r: Vec<u128>)
    ensures
        r@ == v@,
{
    let mut out: Vec<u128> = Vec::new();
    let mut i: usize = 0;
    while i < v.len()
        invariant
            0 <= i <= v.len(),
            out@ == v@.take(i as int),
        decreases v.len() - i,
    {
        out.push(v[i]);
        proof {
            assert(out@ =~= v@.take(i + 1));
        }
        i = i + 1;
    }
    proof {
        assert(v@.take(v@.len() as int) =~= v@);
    }
    out
}

} // verus!
