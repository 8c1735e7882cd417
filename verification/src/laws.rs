//! Properties of the store that hold for every input: identity
//! stability, relation reconciliation, envelope overrides, namespace
//! defaulting and the page clamp, each proved from the contracts of
//! the pipeline.
use vstd::prelude::*;

use crate::apply_impl::{apply_envelope, envelope_str, norm_doc, norm_list};
use crate::backend::{
    apply_spec, batch_sids, check_targets, del_ns, get_spec, page_of, plan_rows, rels_all, ret_of,
    rets_v, row_for, validate_all, validate_one, PreparedV, StoreV,
};
use crate::data_models::{DbObjectV, Relation};
use crate::error::ErrV;
use crate::json::Jv;
use crate::models::{GetObjectsFilterV, ObjectV};
use crate::queries::{
    add_missing, filter_rels, has_obj_sid, obj_idx_by_sid, remove_rels, upsert_all, wf_objects,
};
use crate::text::spec_string_id;

verus! {

// ---------------------------------------------------------------------
// Membership of the relation-table operations.
// ---------------------------------------------------------------------

/// An edge is in the table after a conflict-free batch insert exactly
/// when it was stored or listed.
pub proof fn lemma_add_missing_mem(t: Seq<Relation>, rels: Seq<Relation>, x: Relation)
    ensures
        add_missing(t, rels).contains(x) <==> (t.contains(x) || rels.contains(x)),
    decreases rels.len(),
{
    if rels.len() > 0 {
        let t2 = if t.contains(rels.first()) {
            t
        } else {
            t.push(rels.first())
        };
        lemma_add_missing_mem(t2, rels.drop_first(), x);
        if !t.contains(rels.first()) {
            assert(t2.contains(x) <==> (t.contains(x) || x == rels.first())) by {
                if t2.contains(x) {
                    let i = choose|i: int| 0 <= i < t2.len() && t2[i] == x;
                    if i < t.len() {
                        assert(t.contains(x));
                    }
                }
                if t.contains(x) {
                    let i = choose|i: int| 0 <= i < t.len() && t[i] == x;
                    assert(t2[i] == x);
                }
                assert(t2[t.len() as int] == rels.first());
            }
        }
        assert(rels.contains(x) <==> (x == rels.first() || rels.drop_first().contains(x))) by {
            if rels.contains(x) {
                let i = choose|i: int| 0 <= i < rels.len() && rels[i] == x;
                if i > 0 {
                    assert(rels.drop_first()[i - 1] == x);
                }
            }
            if rels.drop_first().contains(x) {
                let i = choose|i: int|
                    0 <= i < rels.drop_first().len() && rels.drop_first()[i] == x;
                assert(rels[i + 1] == x);
            }
        }
    }
}

/// An edge survives a set-based delete exactly when it was stored and
/// not listed.
pub proof fn lemma_remove_rels_mem(t: Seq<Relation>, dels: Seq<Relation>, x: Relation)
    ensures
        remove_rels(t, dels).contains(x) <==> (t.contains(x) && !dels.contains(x)),
    decreases t.len(),
{
    if t.len() > 0 {
        lemma_remove_rels_mem(t.drop_last(), dels, x);
        let r = remove_rels(t, dels);
        let rp = remove_rels(t.drop_last(), dels);
        assert(t.contains(x) <==> (t.drop_last().contains(x) || x == t.last())) by {
            if t.contains(x) {
                let i = choose|i: int| 0 <= i < t.len() && t[i] == x;
                if i < t.len() - 1 {
                    assert(t.drop_last()[i] == x);
                }
            }
            if t.drop_last().contains(x) {
                let i = choose|i: int| 0 <= i < t.drop_last().len() && t.drop_last()[i] == x;
                assert(t[i] == x);
            }
        }
        if dels.contains(t.last()) {
            assert(r =~= rp);
        } else {
            assert(r =~= rp.push(t.last()));
            assert(r.contains(x) <==> (rp.contains(x) || x == t.last())) by {
                if r.contains(x) {
                    let i = choose|i: int| 0 <= i < r.len() && r[i] == x;
                    if i < rp.len() {
                        assert(rp.contains(x));
                    }
                }
                if rp.contains(x) {
                    let i = choose|i: int| 0 <= i < rp.len() && rp[i] == x;
                    assert(r[i] == x);
                }
                assert(r[rp.len() as int] == t.last());
            }
        }
    }
}

/// An edge is selected by object identifiers exactly when it is stored
/// and carries one of them.
pub proof fn lemma_filter_rels_mem(t: Seq<Relation>, ids: Seq<u128>, x: Relation)
    ensures
        filter_rels(t, ids).contains(x) <==> (t.contains(x) && ids.contains(x.object_id)),
    decreases t.len(),
{
    if t.len() > 0 {
        lemma_filter_rels_mem(t.drop_last(), ids, x);
        let r = filter_rels(t, ids);
        let rp = filter_rels(t.drop_last(), ids);
        assert(t.contains(x) <==> (t.drop_last().contains(x) || x == t.last())) by {
            if t.contains(x) {
                let i = choose|i: int| 0 <= i < t.len() && t[i] == x;
                if i < t.len() - 1 {
                    assert(t.drop_last()[i] == x);
                }
            }
            if t.drop_last().contains(x) {
                let i = choose|i: int| 0 <= i < t.drop_last().len() && t.drop_last()[i] == x;
                assert(t[i] == x);
            }
        }
        if ids.contains(t.last().object_id) {
            assert(r =~= rp.push(t.last()));
            assert(r.contains(x) <==> (rp.contains(x) || x == t.last())) by {
                if r.contains(x) {
                    let i = choose|i: int| 0 <= i < r.len() && r[i] == x;
                    if i < rp.len() {
                        assert(rp.contains(x));
                    }
                }
                if rp.contains(x) {
                    let i = choose|i: int| 0 <= i < rp.len() && rp[i] == x;
                    assert(r[i] == x);
                }
                assert(r[rp.len() as int] == t.last());
            }
        } else {
            assert(r =~= rp);
        }
    }
}

// ---------------------------------------------------------------------
// The stages of a successful apply, named for the laws.
// ---------------------------------------------------------------------

/// The prepared batch of a document against a store, when every stage
/// before the transaction succeeds.
pub open spec fn prepared_of(s: StoreV, doc: Jv) -> Seq<PreparedV> {
    validate_all(s.schemas, s.constraints, norm_doc(doc)->Ok_0)->Ok_0
}

/// The rows a successful apply writes.
pub open spec fn rows_of(s: StoreV, doc: Jv, now: i64, ids: Seq<u128>) -> Seq<DbObjectV> {
    plan_rows(s.objects, prepared_of(s, doc), now, ids).0
}

/// The identifiers of the applied objects.
pub open spec fn applied_ids_of(s: StoreV, doc: Jv, now: i64, ids: Seq<u128>) -> Seq<u128> {
    rows_of(s, doc, now, ids).map_values(|r: DbObjectV| r.id)
}

/// The desired edge set of a successful apply.
pub open spec fn desired_of(s: StoreV, doc: Jv, now: i64, ids: Seq<u128>) -> Seq<Relation> {
    rels_all(
        upsert_all(s.objects, rows_of(s, doc, now, ids))->Ok_0,
        rows_of(s, doc, now, ids),
        prepared_of(s, doc),
    )->Ok_0
}

/// A successful apply went through every stage.
pub proof fn lemma_apply_ok_stages(s: StoreV, doc: Jv, now: i64, ids: Seq<u128>)
    requires
        apply_spec(s, doc, now, ids).result is Ok,
    ensures
        norm_doc(doc) is Ok,
        validate_all(s.schemas, s.constraints, norm_doc(doc)->Ok_0) is Ok,
        check_targets(s.objects, batch_sids(prepared_of(s, doc)), prepared_of(s, doc)) is Ok,
        upsert_all(s.objects, rows_of(s, doc, now, ids)) is Ok,
        rels_all(
            upsert_all(s.objects, rows_of(s, doc, now, ids))->Ok_0,
            rows_of(s, doc, now, ids),
            prepared_of(s, doc),
        ) is Ok,
        apply_spec(s, doc, now, ids).result->Ok_0 == rows_of(s, doc, now, ids).map_values(
            |r: DbObjectV| ret_of(r),
        ),
        apply_spec(s, doc, now, ids).objects == upsert_all(
            s.objects,
            rows_of(s, doc, now, ids),
        )->Ok_0,
        apply_spec(s, doc, now, ids).relations == add_missing(
            remove_rels(
                s.relations,
                remove_rels(
                    filter_rels(s.relations, applied_ids_of(s, doc, now, ids)),
                    desired_of(s, doc, now, ids),
                ),
            ),
            desired_of(s, doc, now, ids),
        ),
{
}

// ---------------------------------------------------------------------
// Relation reconciliation.
// ---------------------------------------------------------------------

/// After a successful apply, an edge of an applied object is stored
/// exactly when it is among the desired edges that the batch's
/// references resolve to; every prior edge of an applied object not
/// desired any more is gone.
pub proof fn law_relation_reconciliation(
    s: StoreV,
    doc: Jv,
    now: i64,
    ids: Seq<u128>,
    x: Relation,
)
    requires
        apply_spec(s, doc, now, ids).result is Ok,
        applied_ids_of(s, doc, now, ids).contains(x.object_id),
    ensures
        apply_spec(s, doc, now, ids).relations.contains(x) <==> desired_of(
            s,
            doc,
            now,
            ids,
        ).contains(x),
{
    lemma_apply_ok_stages(s, doc, now, ids);
    let applied = applied_ids_of(s, doc, now, ids);
    let desired = desired_of(s, doc, now, ids);
    let existing = filter_rels(s.relations, applied);
    let stale = remove_rels(existing, desired);
    let mid = remove_rels(s.relations, stale);
    lemma_add_missing_mem(mid, desired, x);
    lemma_remove_rels_mem(s.relations, stale, x);
    lemma_remove_rels_mem(existing, desired, x);
    lemma_filter_rels_mem(s.relations, applied, x);
}

/// The edge a resolved reference stands for: from the applied row,
/// to the row its target identifier names in the upserted table, via
/// the constraint.
pub open spec fn edge_of(
    t2: Seq<DbObjectV>,
    row: DbObjectV,
    fk: (Seq<Seq<char>>, u128),
    l: int,
) -> Relation {
    Relation {
        object_id: row.id,
        foreign_object_id: t2[obj_idx_by_sid(t2, fk.0[l])].id,
        foreign_key_id: fk.1,
    }
}

/// One constraint's resolved edges: one per reference, in order.
pub proof fn lemma_rels_targets_index(
    t2: Seq<DbObjectV>,
    oid: u128,
    ts: Seq<Seq<char>>,
    fkid: u128,
)
    requires
        crate::backend::rels_for_targets(t2, oid, ts, fkid) is Ok,
    ensures
        ({
            let rels = crate::backend::rels_for_targets(t2, oid, ts, fkid)->Ok_0;
            &&& rels.len() == ts.len()
            &&& forall|l: int|
                0 <= l < ts.len() ==> has_obj_sid(t2, #[trigger] ts[l]) && rels[l] == (Relation {
                    object_id: oid,
                    foreign_object_id: t2[obj_idx_by_sid(t2, ts[l])].id,
                    foreign_key_id: fkid,
                })
        }),
    decreases ts.len(),
{
    if ts.len() > 0 {
        lemma_rels_targets_index(t2, oid, ts.drop_first(), fkid);
        let rels = crate::backend::rels_for_targets(t2, oid, ts, fkid)->Ok_0;
        let rest = crate::backend::rels_for_targets(t2, oid, ts.drop_first(), fkid)->Ok_0;
        assert(forall|l: int|
            0 <= l < ts.drop_first().len() ==> #[trigger] ts.drop_first()[l] == ts[l + 1]);
        assert(forall|l: int| 0 <= l < rest.len() ==> #[trigger] rels[l + 1] == rest[l]);
        assert(rels[0] == (Relation {
            object_id: oid,
            foreign_object_id: t2[obj_idx_by_sid(t2, ts.first())].id,
            foreign_key_id: fkid,
        }));
        assert(ts[0] == ts.first());
        assert forall|l: int| 0 <= l < ts.len() implies has_obj_sid(t2, #[trigger] ts[l])
            && rels[l] == (Relation {
            object_id: oid,
            foreign_object_id: t2[obj_idx_by_sid(t2, ts[l])].id,
            foreign_key_id: fkid,
        }) by {
            if l > 0 {
                assert(ts.drop_first()[l - 1] == ts[l]);
                assert(has_obj_sid(t2, ts.drop_first()[l - 1]));
                assert(rest[l - 1] == (Relation {
                    object_id: oid,
                    foreign_object_id: t2[obj_idx_by_sid(t2, ts.drop_first()[l - 1])].id,
                    foreign_key_id: fkid,
                }));
                assert(rels[l] == rest[l - 1]);
            }
        }
    }
}

/// An element of a concatenation comes from one of its parts.
pub proof fn lemma_concat_contains(a: Seq<Relation>, b: Seq<Relation>, x: Relation)
    ensures
        (a + b).contains(x) <==> (a.contains(x) || b.contains(x)),
{
    if (a + b).contains(x) {
        let i = choose|i: int| 0 <= i < (a + b).len() && (a + b)[i] == x;
        if i < a.len() {
            assert(a[i] == x);
        } else {
            assert(b[i - a.len()] == x);
        }
    }
    if a.contains(x) {
        let i = choose|i: int| 0 <= i < a.len() && a[i] == x;
        assert((a + b)[i] == x);
    }
    if b.contains(x) {
        let i = choose|i: int| 0 <= i < b.len() && b[i] == x;
        assert((a + b)[a.len() + i] == x);
    }
}

/// One object's desired edges are exactly the edges of its resolved
/// references.
pub proof fn lemma_rels_obj_mem(
    t2: Seq<DbObjectV>,
    row: DbObjectV,
    fks: Seq<(Seq<Seq<char>>, u128)>,
    x: Relation,
)
    requires
        crate::backend::rels_for_obj(t2, row.id, fks) is Ok,
    ensures
        crate::backend::rels_for_obj(t2, row.id, fks)->Ok_0.contains(x) <==> exists|k: int, l: int|
            0 <= k < fks.len() && 0 <= l < fks[k].0.len() && x == #[trigger] edge_of(
                t2,
                row,
                fks[k],
                l,
            ),
    decreases fks.len(),
{
    let rels = crate::backend::rels_for_obj(t2, row.id, fks)->Ok_0;
    if fks.len() == 0 {
        assert(!rels.contains(x)) by {
            if rels.contains(x) {
                let i = choose|i: int| 0 <= i < rels.len() && rels[i] == x;
            }
        }
    } else {
        let one = crate::backend::rels_for_targets(t2, row.id, fks.first().0, fks.first().1)->Ok_0;
        let rest = crate::backend::rels_for_obj(t2, row.id, fks.drop_first())->Ok_0;
        lemma_rels_obj_mem(t2, row, fks.drop_first(), x);
        lemma_rels_targets_index(t2, row.id, fks.first().0, fks.first().1);
        lemma_concat_contains(one, rest, x);
        assert(forall|k: int|
            0 <= k < fks.drop_first().len() ==> #[trigger] fks.drop_first()[k] == fks[k + 1]);
        assert(fks[0] == fks.first());
        if rels.contains(x) {
            if one.contains(x) {
                let l = choose|l: int| 0 <= l < one.len() && one[l] == x;
                assert(x == edge_of(t2, row, fks[0], l));
            } else {
                let (k, l) = choose|k: int, l: int|
                    0 <= k < fks.drop_first().len() && 0 <= l < fks.drop_first()[k].0.len() && x
                        == #[trigger] edge_of(t2, row, fks.drop_first()[k], l);
                assert(x == edge_of(t2, row, fks[k + 1], l));
            }
        }
        if exists|k: int, l: int|
            0 <= k < fks.len() && 0 <= l < fks[k].0.len() && x == #[trigger] edge_of(
                t2,
                row,
                fks[k],
                l,
            ) {
            let (k, l) = choose|k: int, l: int|
                0 <= k < fks.len() && 0 <= l < fks[k].0.len() && x == #[trigger] edge_of(
                    t2,
                    row,
                    fks[k],
                    l,
                );
            if k == 0 {
                assert(one[l] == x);
                assert(one.contains(x));
            } else {
                assert(fks.drop_first()[k - 1] == fks[k]);
                assert(x == edge_of(t2, row, fks.drop_first()[k - 1], l));
                assert(rest.contains(x));
            }
        }
    }
}

/// The desired edge set of a successful apply holds exactly the edges
/// of the batch's resolved references: from the row written for the
/// `j`-th object, to the row its `l`-th reference under its `k`-th
/// constraint names, via that constraint. With the reconciliation law
/// this fixes the stored edges of the applied objects completely.
pub proof fn law_desired_edges(s: StoreV, doc: Jv, now: i64, ids: Seq<u128>, x: Relation)
    requires
        apply_spec(s, doc, now, ids).result is Ok,
    ensures
        ({
            let pre = prepared_of(s, doc);
            let rows = rows_of(s, doc, now, ids);
            let t2 = upsert_all(s.objects, rows)->Ok_0;
            desired_of(s, doc, now, ids).contains(x) <==> exists|j: int, k: int, l: int|
                0 <= j < pre.len() && 0 <= k < pre[j].fks.len() && 0 <= l < pre[j].fks[k].0.len()
                    && x == #[trigger] edge_of(t2, rows[j], pre[j].fks[k], l)
        }),
{
    lemma_apply_ok_stages(s, doc, now, ids);
    let pre = prepared_of(s, doc);
    let rows = rows_of(s, doc, now, ids);
    let t2 = upsert_all(s.objects, rows)->Ok_0;
    crate::backend::lemma_validate_all_len(s.schemas, s.constraints, norm_doc(doc)->Ok_0);
    crate::backend::lemma_plan_rows_len(s.objects, pre, now, ids);
    lemma_rels_all_mem(t2, rows, pre, x);
}

/// The whole batch's desired edges, object by object.
pub proof fn lemma_rels_all_mem(
    t2: Seq<DbObjectV>,
    rows: Seq<DbObjectV>,
    pre: Seq<PreparedV>,
    x: Relation,
)
    requires
        rows.len() == pre.len(),
        rels_all(t2, rows, pre) is Ok,
    ensures
        rels_all(t2, rows, pre)->Ok_0.contains(x) <==> exists|j: int, k: int, l: int|
            0 <= j < pre.len() && 0 <= k < pre[j].fks.len() && 0 <= l < pre[j].fks[k].0.len() && x
                == #[trigger] edge_of(t2, rows[j], pre[j].fks[k], l),
    decreases pre.len(),
{
    let rels = rels_all(t2, rows, pre)->Ok_0;
    if pre.len() == 0 {
        assert(!rels.contains(x)) by {
            if rels.contains(x) {
                let i = choose|i: int| 0 <= i < rels.len() && rels[i] == x;
            }
        }
    } else {
        let one = crate::backend::rels_for_obj(t2, rows.first().id, pre.first().fks)->Ok_0;
        let rest = rels_all(t2, rows.drop_first(), pre.drop_first())->Ok_0;
        lemma_rels_all_mem(t2, rows.drop_first(), pre.drop_first(), x);
        lemma_rels_obj_mem(t2, rows.first(), pre.first().fks, x);
        lemma_concat_contains(one, rest, x);
        assert(forall|j: int|
            0 <= j < pre.drop_first().len() ==> #[trigger] pre.drop_first()[j] == pre[j + 1]);
        assert(forall|j: int|
            0 <= j < rows.drop_first().len() ==> #[trigger] rows.drop_first()[j] == rows[j + 1]);
        assert(pre[0] == pre.first() && rows[0] == rows.first());
        if rels.contains(x) {
            if one.contains(x) {
                let (k, l) = choose|k: int, l: int|
                    0 <= k < pre.first().fks.len() && 0 <= l < pre.first().fks[k].0.len() && x
                        == #[trigger] edge_of(t2, rows.first(), pre.first().fks[k], l);
                assert(x == edge_of(t2, rows[0], pre[0].fks[k], l));
            } else {
                let (j, k, l) = choose|j: int, k: int, l: int|
                    0 <= j < pre.drop_first().len() && 0 <= k < pre.drop_first()[j].fks.len() && 0
                        <= l < pre.drop_first()[j].fks[k].0.len() && x == #[trigger] edge_of(
                        t2,
                        rows.drop_first()[j],
                        pre.drop_first()[j].fks[k],
                        l,
                    );
                assert(x == edge_of(t2, rows[j + 1], pre[j + 1].fks[k], l));
            }
        }
        if exists|j: int, k: int, l: int|
            0 <= j < pre.len() && 0 <= k < pre[j].fks.len() && 0 <= l < pre[j].fks[k].0.len() && x
                == #[trigger] edge_of(t2, rows[j], pre[j].fks[k], l) {
            let (j, k, l) = choose|j: int, k: int, l: int|
                0 <= j < pre.len() && 0 <= k < pre[j].fks.len() && 0 <= l < pre[j].fks[k].0.len()
                    && x == #[trigger] edge_of(t2, rows[j], pre[j].fks[k], l);
            if j == 0 {
                assert(x == edge_of(t2, rows.first(), pre.first().fks[k], l));
                assert(one.contains(x));
            } else {
                assert(pre.drop_first()[j - 1] == pre[j]);
                assert(rows.drop_first()[j - 1] == rows[j]);
                assert(x == edge_of(t2, rows.drop_first()[j - 1], pre.drop_first()[j - 1].fks[k], l));
                assert(rest.contains(x));
            }
        }
    }
}

// ---------------------------------------------------------------------
// Identity stability.
// ---------------------------------------------------------------------

/// Every validated object's identifier is composed from its resolved
/// namespace, kind and name.
pub proof fn lemma_validate_all_shape(
    schemas: Seq<crate::data_models::ObjectSchemaV>,
    constraints: Seq<crate::data_models::ForeignKeyConstraintV>,
    objs: Seq<ObjectV>,
    j: int,
)
    requires
        validate_all(schemas, constraints, objs) is Ok,
        0 <= j < validate_all(schemas, constraints, objs)->Ok_0.len(),
    ensures
        ({
            let p = validate_all(schemas, constraints, objs)->Ok_0[j];
            p.string_id == spec_string_id(p.ns, p.kind, p.name)
        }),
    decreases objs.len(),
{
    if objs.len() > 0 {
        if j > 0 {
            lemma_validate_all_shape(schemas, constraints, objs.drop_first(), j - 1);
        }
    }
}

/// Each planned row keeps its object's identifier, takes the shared
/// instant as its update time, and reuses the stored identity when its
/// `string_id` is already stored.
pub proof fn lemma_plan_rows_index(
    t: Seq<DbObjectV>,
    pre: Seq<PreparedV>,
    now: i64,
    ids: Seq<u128>,
    j: int,
)
    requires
        0 <= j < pre.len(),
    ensures
        ({
            let rows = plan_rows(t, pre, now, ids).0;
            &&& rows.len() == pre.len()
            &&& rows[j].string_id == pre[j].string_id
            &&& rows[j].namespace == pre[j].ns
            &&& rows[j].kind == pre[j].kind
            &&& rows[j].name == pre[j].name
            &&& rows[j].updated_at == now
            &&& has_obj_sid(t, pre[j].string_id) ==> {
                let ex = t[obj_idx_by_sid(t, pre[j].string_id)];
                rows[j].id == ex.id && rows[j].created_at == ex.created_at
            }
        }),
    decreases pre.len(),
{
    crate::backend::lemma_plan_rows_len(t, pre, now, ids);
    if has_obj_sid(t, pre.first().string_id) {
        crate::backend::lemma_plan_rows_len(t, pre.drop_first(), now, ids);
        if j > 0 {
            lemma_plan_rows_index(t, pre.drop_first(), now, ids, j - 1);
        }
    } else {
        crate::backend::lemma_plan_rows_len(t, pre.drop_first(), now, ids.drop_first());
        if j > 0 {
            lemma_plan_rows_index(t, pre.drop_first(), now, ids.drop_first(), j - 1);
        }
    }
}

/// When an object whose `(namespace, kind, name)` is already stored is
/// applied again, the response carries the stored `id` and
/// `created_at`, and its `updated_at` is the apply's instant: applying
/// at a later instant strictly increases it.
pub proof fn law_identity_stability(s: StoreV, doc: Jv, now: i64, ids: Seq<u128>, j: int)
    requires
        wf_objects(s.objects),
        apply_spec(s, doc, now, ids).result is Ok,
        0 <= j < apply_spec(s, doc, now, ids).result->Ok_0.len(),
        has_obj_sid(
            s.objects,
            ({
                let r = apply_spec(s, doc, now, ids).result->Ok_0[j];
                spec_string_id(r.namespace, r.kind, r.name)
            }),
        ),
    ensures
        ({
            let r = apply_spec(s, doc, now, ids).result->Ok_0[j];
            let ex = s.objects[obj_idx_by_sid(
                s.objects,
                spec_string_id(r.namespace, r.kind, r.name),
            )];
            &&& r.id == ex.id
            &&& r.created_at == ex.created_at
            &&& r.updated_at == now
            &&& now > ex.updated_at ==> r.updated_at > ex.updated_at
        }),
{
    lemma_apply_ok_stages(s, doc, now, ids);
    let pre = prepared_of(s, doc);
    let rows = rows_of(s, doc, now, ids);
    crate::backend::lemma_validate_all_len(s.schemas, s.constraints, norm_doc(doc)->Ok_0);
    crate::backend::lemma_plan_rows_len(s.objects, pre, now, ids);
    lemma_plan_rows_index(s.objects, pre, now, ids, j);
    lemma_validate_all_shape(s.schemas, s.constraints, norm_doc(doc)->Ok_0, j);
    let r = apply_spec(s, doc, now, ids).result->Ok_0[j];
    assert(r == ret_of(rows[j]));
    assert(spec_string_id(r.namespace, r.kind, r.name) == pre[j].string_id);
}

// ---------------------------------------------------------------------
// Apply idempotence.
// ---------------------------------------------------------------------

/// No two objects of the batch name the same stored row.
pub open spec fn distinct_sids(pre: Seq<PreparedV>) -> bool {
    forall|i: int, j: int|
        0 <= i < j < pre.len() ==> (#[trigger] pre[i].string_id) != (#[trigger] pre[j].string_id)
}

/// The drawn identifiers are pairwise distinct and unused.
pub open spec fn fresh_ids_ok(t: Seq<DbObjectV>, ids: Seq<u128>) -> bool {
    &&& forall|i: int, j: int| 0 <= i < j < ids.len() ==> (#[trigger] ids[i]) != (#[trigger] ids[j])
    &&& forall|i: int| 0 <= i < ids.len() ==> !crate::queries::has_obj_id(t, #[trigger] ids[i])
}

/// Whether some row of the batch carries this identifier.
pub open spec fn rows_have_sid(rows: Seq<DbObjectV>, sid: Seq<char>) -> bool {
    exists|j: int| 0 <= j < rows.len() && (#[trigger] rows[j]).string_id == sid
}

/// In a well-formed table, a row's index is the lookup's index.
pub proof fn lemma_sid_idx(t: Seq<DbObjectV>, sid: Seq<char>, w: int)
    requires
        wf_objects(t),
        0 <= w < t.len(),
        t[w].string_id == sid,
    ensures
        has_obj_sid(t, sid),
        obj_idx_by_sid(t, sid) == w,
{
    assert(has_obj_sid(t, sid));
    let v = obj_idx_by_sid(t, sid);
    assert(t[v].string_id == sid);
    assert(v == w);
}

pub proof fn lemma_id_idx(t: Seq<DbObjectV>, id: u128, w: int)
    requires
        wf_objects(t),
        0 <= w < t.len(),
        t[w].id == id,
    ensures
        crate::queries::has_obj_id(t, id),
        crate::queries::obj_idx_by_id(t, id) == w,
{
    assert(crate::queries::has_obj_id(t, id));
    let v = crate::queries::obj_idx_by_id(t, id);
    assert(t[v].id == id);
    assert(v == w);
}

/// A batch planned against a well-formed table with genuinely fresh
/// identifiers: one row per object, its identifier composed as
/// declared, identity reused where stored, all row identifiers
/// pairwise distinct, and fresh ones drawn from the supply.
pub proof fn lemma_plan_rows_good(
    t: Seq<DbObjectV>,
    pre: Seq<PreparedV>,
    now: i64,
    ids: Seq<u128>,
)
    requires
        wf_objects(t),
        distinct_sids(pre),
        fresh_ids_ok(t, ids),
        ids.len() >= pre.len(),
    ensures
        ({
            let rows = plan_rows(t, pre, now, ids).0;
            &&& rows.len() == pre.len()
            &&& forall|j: int|
                0 <= j < pre.len() ==> (#[trigger] rows[j]).string_id == pre[j].string_id
            &&& forall|i: int, j: int|
                0 <= i < j < rows.len() ==> (#[trigger] rows[i]).id != (#[trigger] rows[j]).id
            &&& forall|j: int|
                0 <= j < pre.len() && has_obj_sid(t, pre[j].string_id) ==> {
                    let ex = t[obj_idx_by_sid(t, pre[j].string_id)];
                    (#[trigger] rows[j]).id == ex.id && rows[j].created_at == ex.created_at
                }
            &&& forall|j: int|
                0 <= j < pre.len() && !has_obj_sid(t, pre[j].string_id) ==> !crate::queries::has_obj_id(
                    t,
                    (#[trigger] rows[j]).id,
                ) && ids.contains(rows[j].id)
        }),
    decreases pre.len(),
{
    crate::backend::lemma_plan_rows_len(t, pre, now, ids);
    if pre.len() > 0 {
        let rows = plan_rows(t, pre, now, ids).0;
        let p0 = pre.first();
        if has_obj_sid(t, p0.string_id) {
            let rest = plan_rows(t, pre.drop_first(), now, ids).0;
            lemma_plan_rows_good(t, pre.drop_first(), now, ids);
            assert(rows =~= seq![row_for(t, p0, now, 0)] + rest);
            assert(rows[0] == row_for(t, p0, now, 0));
            assert(forall|j: int| 0 <= j < rest.len() ==> #[trigger] rows[j + 1] == rest[j]);
            let ex0 = t[obj_idx_by_sid(t, p0.string_id)];
            assert(rows[0].id == ex0.id && rows[0].created_at == ex0.created_at);
            assert forall|i: int, j: int| 0 <= i < j < rows.len() implies (#[trigger] rows[i]).id
                != (#[trigger] rows[j]).id by {
                if i == 0 {
                    let pj = pre.drop_first()[j - 1];
                    assert(rest[j - 1].string_id == pj.string_id);
                    if has_obj_sid(t, pj.string_id) {
                        let wj = obj_idx_by_sid(t, pj.string_id);
                        let w0 = obj_idx_by_sid(t, p0.string_id);
                        assert(rest[j - 1].id == t[wj].id);
                        assert(pj.string_id != p0.string_id);
                        assert(t[wj].string_id == pj.string_id);
                        assert(t[w0].string_id == p0.string_id);
                        assert(wj != w0);
                        assert(t[wj].id != t[w0].id);
                    } else {
                        assert(!crate::queries::has_obj_id(t, rest[j - 1].id));
                        lemma_id_idx(t, ex0.id, obj_idx_by_sid(t, p0.string_id));
                    }
                } else {
                    assert(rest[i - 1].id != rest[j - 1].id);
                }
            }
        } else {
            let rest = plan_rows(t, pre.drop_first(), now, ids.drop_first()).0;
            assert(fresh_ids_ok(t, ids.drop_first())) by {
                assert(forall|i: int|
                    0 <= i < ids.drop_first().len() ==> #[trigger] ids.drop_first()[i] == ids[i
                        + 1]);
            }
            lemma_plan_rows_good(t, pre.drop_first(), now, ids.drop_first());
            assert(rows =~= seq![row_for(t, p0, now, ids.first())] + rest);
            assert(rows[0] == row_for(t, p0, now, ids.first()));
            assert(forall|j: int| 0 <= j < rest.len() ==> #[trigger] rows[j + 1] == rest[j]);
            assert(rows[0].id == ids[0]);
            assert(!crate::queries::has_obj_id(t, rows[0].id));
            assert(ids.contains(rows[0].id));
            assert forall|j: int|
                0 <= j < pre.len() && !has_obj_sid(t, pre[j].string_id) implies !crate::queries::has_obj_id(
                t,
                (#[trigger] rows[j]).id,
            ) && ids.contains(rows[j].id) by {
                if j > 0 {
                    assert(ids.drop_first().contains(rest[j - 1].id));
                    let m = choose|m: int|
                        0 <= m < ids.drop_first().len() && ids.drop_first()[m] == rest[j - 1].id;
                    assert(ids[m + 1] == rest[j - 1].id);
                }
            }
            assert forall|i: int, j: int| 0 <= i < j < rows.len() implies (#[trigger] rows[i]).id
                != (#[trigger] rows[j]).id by {
                if i == 0 {
                    let pj = pre.drop_first()[j - 1];
                    assert(rest[j - 1].string_id == pj.string_id);
                    if has_obj_sid(t, pj.string_id) {
                        let wj = obj_idx_by_sid(t, pj.string_id);
                        assert(rest[j - 1].id == t[wj].id);
                        lemma_id_idx(t, t[wj].id, wj);
                        assert(!crate::queries::has_obj_id(t, ids[0]));
                    } else {
                        assert(ids.drop_first().contains(rest[j - 1].id));
                        let m = choose|m: int|
                            0 <= m < ids.drop_first().len() && ids.drop_first()[m] == rest[j
                                - 1].id;
                        assert(ids[m + 1] == rest[j - 1].id);
                        assert(ids[0] != ids[m + 1]);
                    }
                } else {
                    assert(rest[i - 1].id != rest[j - 1].id);
                }
            }
        }
    }
}

/// The hypotheses under which a batch upsert cannot fail.
pub open spec fn rows_good(t: Seq<DbObjectV>, rows: Seq<DbObjectV>) -> bool {
    &&& forall|i: int, j: int|
        0 <= i < j < rows.len() ==> (#[trigger] rows[i]).string_id != (#[trigger] rows[j]).string_id
    &&& forall|i: int, j: int|
        0 <= i < j < rows.len() ==> (#[trigger] rows[i]).id != (#[trigger] rows[j]).id
    &&& forall|j: int|
        0 <= j < rows.len() && has_obj_sid(t, (#[trigger] rows[j]).string_id) ==> {
            let ex = t[obj_idx_by_sid(t, rows[j].string_id)];
            rows[j].id == ex.id && rows[j].created_at == ex.created_at
        }
    &&& forall|j: int|
        0 <= j < rows.len() && !has_obj_sid(t, (#[trigger] rows[j]).string_id)
            ==> !crate::queries::has_obj_id(t, rows[j].id)
}

/// A batch of distinct rows whose identities agree with the table
/// upserts without error; afterwards each row stands under its
/// `string_id` exactly as planned, and every other row of the table is
/// untouched.
pub proof fn lemma_upsert_batch(t: Seq<DbObjectV>, rows: Seq<DbObjectV>)
    requires
        wf_objects(t),
        rows_good(t, rows),
    ensures
        upsert_all(t, rows) is Ok,
        ({
            let t2 = upsert_all(t, rows)->Ok_0;
            &&& wf_objects(t2)
            &&& forall|j: int|
                0 <= j < rows.len() ==> has_obj_sid(t2, (#[trigger] rows[j]).string_id) && t2[obj_idx_by_sid(
                    t2,
                    rows[j].string_id,
                )] == rows[j]
            &&& forall|sid: Seq<char>|
                !rows_have_sid(rows, sid) ==> ((has_obj_sid(t2, sid) <==> #[trigger] has_obj_sid(
                    t,
                    sid,
                )) && (has_obj_sid(t, sid) ==> t2[obj_idx_by_sid(t2, sid)] == t[obj_idx_by_sid(
                    t,
                    sid,
                )]))
        }),
    decreases rows.len(),
{
    if rows.len() == 0 {
    } else {
        let r0 = rows.first();
        let rest = rows.drop_first();
        assert(forall|j: int| 0 <= j < rest.len() ==> #[trigger] rest[j] == rows[j + 1]);
        if has_obj_sid(t, r0.string_id) {
            let w0 = obj_idx_by_sid(t, r0.string_id);
            assert(t[w0].string_id == r0.string_id);
            assert(r0.id == t[w0].id && r0.created_at == t[w0].created_at);
            lemma_id_idx(t, r0.id, w0);
            assert(!crate::queries::sid_clash_elsewhere(t, r0.string_id, w0)) by {
                if crate::queries::sid_clash_elsewhere(t, r0.string_id, w0) {
                    let k = choose|k: int|
                        0 <= k < t.len() && k != w0 && (#[trigger] t[k]).string_id
                            == r0.string_id;
                    assert(t[k].string_id == t[w0].string_id);
                    assert(false);
                }
            }
            let merged = crate::queries::merge_row(t[w0], r0);
            assert(merged == r0);
            let t1 = t.update(w0, r0);
            assert(crate::queries::upsert_one(t, r0) == Ok::<_, ()>(t1));
            assert(forall|i: int| 0 <= i < t1.len() ==> (#[trigger] t1[i]).id == t[i].id);
            assert(forall|i: int|
                0 <= i < t1.len() ==> (#[trigger] t1[i]).string_id == t[i].string_id);
            assert(wf_objects(t1));
            assert(rows_good(t1, rest)) by {
                assert forall|j: int|
                    0 <= j < rest.len() && has_obj_sid(t1, (#[trigger] rest[j]).string_id)
                    implies {
                    let ex = t1[obj_idx_by_sid(t1, rest[j].string_id)];
                    rest[j].id == ex.id && rest[j].created_at == ex.created_at
                } by {
                    let w = obj_idx_by_sid(t1, rest[j].string_id);
                    assert(t1[w].string_id == rest[j].string_id);
                    assert(t[w].string_id == rest[j].string_id);
                    lemma_sid_idx(t, rest[j].string_id, w);
                    assert(rest[j].string_id != r0.string_id);
                    assert(w != w0);
                    assert(t1[w] == t[w]);
                }
                assert forall|j: int|
                    0 <= j < rest.len() && !has_obj_sid(t1, (#[trigger] rest[j]).string_id)
                    implies !crate::queries::has_obj_id(t1, rest[j].id) by {
                    assert(has_obj_sid(t, rest[j].string_id) ==> has_obj_sid(
                        t1,
                        rest[j].string_id,
                    )) by {
                        if has_obj_sid(t, rest[j].string_id) {
                            let w = obj_idx_by_sid(t, rest[j].string_id);
                            assert(t1[w].string_id == rest[j].string_id);
                        }
                    }
                    assert(!crate::queries::has_obj_id(t, rest[j].id));
                    if crate::queries::has_obj_id(t1, rest[j].id) {
                        let w = crate::queries::obj_idx_by_id(t1, rest[j].id);
                        assert(t1[w].id == rest[j].id);
                        assert(t[w].id == rest[j].id);
                        assert(false);
                    }
                }
            }
            lemma_upsert_batch(t1, rest);
            let t2 = upsert_all(t1, rest)->Ok_0;
            assert(upsert_all(t, rows) == Ok::<_, ()>(t2));
            // the first row survives the rest of the batch
            assert(!rows_have_sid(rest, r0.string_id)) by {
                if rows_have_sid(rest, r0.string_id) {
                    let j = choose|j: int|
                        0 <= j < rest.len() && (#[trigger] rest[j]).string_id == r0.string_id;
                    assert(rows[j + 1].string_id == rows[0].string_id);
                    assert(false);
                }
            }
            lemma_sid_idx(t1, r0.string_id, w0);
            assert(has_obj_sid(t2, r0.string_id) && t2[obj_idx_by_sid(t2, r0.string_id)] == r0);
            assert forall|sid: Seq<char>| !rows_have_sid(rows, sid) implies ((has_obj_sid(
                t2,
                sid,
            ) <==> #[trigger] has_obj_sid(t, sid)) && (has_obj_sid(t, sid) ==> t2[obj_idx_by_sid(
                t2,
                sid,
            )] == t[obj_idx_by_sid(t, sid)])) by {
                assert(!rows_have_sid(rest, sid)) by {
                    if rows_have_sid(rest, sid) {
                        let j = choose|j: int|
                            0 <= j < rest.len() && (#[trigger] rest[j]).string_id == sid;
                        assert(rows[j + 1].string_id == sid);
                    }
                }
                assert(sid != r0.string_id) by {
                    assert(rows[0].string_id == r0.string_id);
                }
                assert(has_obj_sid(t1, sid) <==> has_obj_sid(t, sid)) by {
                    if has_obj_sid(t, sid) {
                        let w = obj_idx_by_sid(t, sid);
                        assert(t1[w].string_id == sid);
                    }
                    if has_obj_sid(t1, sid) {
                        let w = obj_idx_by_sid(t1, sid);
                        assert(t[w].string_id == sid);
                        assert(has_obj_sid(t, sid));
                    }
                }
                if has_obj_sid(t, sid) {
                    let w = obj_idx_by_sid(t, sid);
                    assert(t[w].string_id == sid);
                    assert(w != w0);
                    assert(t1[w] == t[w]);
                    lemma_sid_idx(t1, sid, w);
                    assert(t2[obj_idx_by_sid(t2, sid)] == t1[obj_idx_by_sid(t1, sid)]);
                }
            }
            assert forall|j: int| 0 <= j < rows.len() implies has_obj_sid(
                t2,
                (#[trigger] rows[j]).string_id,
            ) && t2[obj_idx_by_sid(t2, rows[j].string_id)] == rows[j] by {
                if j == 0 {
                    assert(rows[0] == r0);
                } else {
                    assert(rest[j - 1] == rows[j]);
                }
            }
        } else {
            assert(!crate::queries::has_obj_id(t, r0.id));
            let t1 = t.push(r0);
            assert(crate::queries::upsert_one(t, r0) == Ok::<_, ()>(t1));
            assert(forall|i: int| 0 <= i < t.len() ==> #[trigger] t1[i] == t[i]);
            assert(t1[t.len() as int] == r0);
            assert(wf_objects(t1)) by {
                assert forall|a: int, b: int| 0 <= a < b < t1.len() implies (#[trigger] t1[a]).id
                    != (#[trigger] t1[b]).id && t1[a].string_id != t1[b].string_id by {
                    if b == t.len() {
                        assert(t1[b] == r0);
                        if has_obj_sid(t, t[a].string_id) {
                        }
                        assert(t[a].id != r0.id) by {
                            lemma_id_idx(t, t[a].id, a);
                        }
                        assert(t[a].string_id != r0.string_id) by {
                            lemma_sid_idx(t, t[a].string_id, a);
                        }
                    }
                }
            }
            assert(rows_good(t1, rest)) by {
                assert forall|j: int|
                    0 <= j < rest.len() && has_obj_sid(t1, (#[trigger] rest[j]).string_id)
                    implies {
                    let ex = t1[obj_idx_by_sid(t1, rest[j].string_id)];
                    rest[j].id == ex.id && rest[j].created_at == ex.created_at
                } by {
                    let w = obj_idx_by_sid(t1, rest[j].string_id);
                    assert(t1[w].string_id == rest[j].string_id);
                    assert(rest[j].string_id != r0.string_id) by {
                        assert(rows[j + 1].string_id != rows[0].string_id);
                    }
                    assert(w != t.len());
                    assert(t1[w] == t[w]);
                    lemma_sid_idx(t, rest[j].string_id, w);
                }
                assert forall|j: int|
                    0 <= j < rest.len() && !has_obj_sid(t1, (#[trigger] rest[j]).string_id)
                    implies !crate::queries::has_obj_id(t1, rest[j].id) by {
                    assert(has_obj_sid(t, rest[j].string_id) ==> has_obj_sid(
                        t1,
                        rest[j].string_id,
                    )) by {
                        if has_obj_sid(t, rest[j].string_id) {
                            let w = obj_idx_by_sid(t, rest[j].string_id);
                            assert(t1[w].string_id == rest[j].string_id);
                        }
                    }
                    assert(!crate::queries::has_obj_id(t, rest[j].id));
                    if crate::queries::has_obj_id(t1, rest[j].id) {
                        let w = crate::queries::obj_idx_by_id(t1, rest[j].id);
                        assert(t1[w].id == rest[j].id);
                        if w < t.len() {
                            assert(t[w].id == rest[j].id);
                            assert(false);
                        } else {
                            assert(t1[w] == r0);
                            assert(rows[j + 1].id != rows[0].id);
                            assert(false);
                        }
                    }
                }
            }
            lemma_upsert_batch(t1, rest);
            let t2 = upsert_all(t1, rest)->Ok_0;
            assert(upsert_all(t, rows) == Ok::<_, ()>(t2));
            assert(!rows_have_sid(rest, r0.string_id)) by {
                if rows_have_sid(rest, r0.string_id) {
                    let j = choose|j: int|
                        0 <= j < rest.len() && (#[trigger] rest[j]).string_id == r0.string_id;
                    assert(rows[j + 1].string_id == rows[0].string_id);
                }
            }
            lemma_sid_idx(t1, r0.string_id, t.len() as int);
            assert(has_obj_sid(t2, r0.string_id) && t2[obj_idx_by_sid(t2, r0.string_id)] == r0);
            assert forall|sid: Seq<char>| !rows_have_sid(rows, sid) implies ((has_obj_sid(
                t2,
                sid,
            ) <==> #[trigger] has_obj_sid(t, sid)) && (has_obj_sid(t, sid) ==> t2[obj_idx_by_sid(
                t2,
                sid,
            )] == t[obj_idx_by_sid(t, sid)])) by {
                assert(!rows_have_sid(rest, sid)) by {
                    if rows_have_sid(rest, sid) {
                        let j = choose|j: int|
                            0 <= j < rest.len() && (#[trigger] rest[j]).string_id == sid;
                        assert(rows[j + 1].string_id == sid);
                    }
                }
                assert(sid != r0.string_id) by {
                    assert(rows[0].string_id == r0.string_id);
                }
                assert(has_obj_sid(t1, sid) <==> has_obj_sid(t, sid)) by {
                    if has_obj_sid(t, sid) {
                        let w = obj_idx_by_sid(t, sid);
                        assert(t1[w].string_id == sid);
                    }
                    if has_obj_sid(t1, sid) {
                        let w = obj_idx_by_sid(t1, sid);
                        assert(t1[w].string_id == sid);
                        assert(w != t.len());
                        assert(t[w].string_id == sid);
                    }
                }
                if has_obj_sid(t, sid) {
                    let w = obj_idx_by_sid(t, sid);
                    assert(t[w].string_id == sid);
                    assert(t1[w] == t[w]);
                    lemma_sid_idx(t1, sid, w);
                    assert(t2[obj_idx_by_sid(t2, sid)] == t1[obj_idx_by_sid(t1, sid)]);
                }
            }
            assert forall|j: int| 0 <= j < rows.len() implies has_obj_sid(
                t2,
                (#[trigger] rows[j]).string_id,
            ) && t2[obj_idx_by_sid(t2, rows[j].string_id)] == rows[j] by {
                if j == 0 {
                    assert(rows[0] == r0);
                } else {
                    assert(rest[j - 1] == rows[j]);
                }
            }
        }
    }
}

/// Two tables that resolve every identifier alike.
pub open spec fn sid_res_eq(ta: Seq<DbObjectV>, tb: Seq<DbObjectV>) -> bool {
    forall|sid: Seq<char>|
        (#[trigger] has_obj_sid(ta, sid) <==> has_obj_sid(tb, sid)) && (has_obj_sid(ta, sid)
            ==> ta[obj_idx_by_sid(ta, sid)].id == tb[obj_idx_by_sid(tb, sid)].id)
}

/// Resolution-equal tables give the same edges for one constraint.
pub proof fn lemma_rels_targets_eq(
    ta: Seq<DbObjectV>,
    tb: Seq<DbObjectV>,
    oid: u128,
    ts: Seq<Seq<char>>,
    fkid: u128,
)
    requires
        sid_res_eq(ta, tb),
    ensures
        crate::backend::rels_for_targets(ta, oid, ts, fkid) == crate::backend::rels_for_targets(
            tb,
            oid,
            ts,
            fkid,
        ),
    decreases ts.len(),
{
    if ts.len() > 0 {
        assert(has_obj_sid(ta, ts.first()) <==> has_obj_sid(tb, ts.first()));
        lemma_rels_targets_eq(ta, tb, oid, ts.drop_first(), fkid);
    }
}

pub proof fn lemma_rels_obj_eq(
    ta: Seq<DbObjectV>,
    tb: Seq<DbObjectV>,
    oid: u128,
    fks: Seq<(Seq<Seq<char>>, u128)>,
)
    requires
        sid_res_eq(ta, tb),
    ensures
        crate::backend::rels_for_obj(ta, oid, fks) == crate::backend::rels_for_obj(tb, oid, fks),
    decreases fks.len(),
{
    if fks.len() > 0 {
        lemma_rels_targets_eq(ta, tb, oid, fks.first().0, fks.first().1);
        lemma_rels_obj_eq(ta, tb, oid, fks.drop_first());
    }
}

/// Resolution-equal tables and identity-equal rows give the same
/// desired edge set.
pub proof fn lemma_rels_all_eq(
    ta: Seq<DbObjectV>,
    tb: Seq<DbObjectV>,
    rowsa: Seq<DbObjectV>,
    rowsb: Seq<DbObjectV>,
    pre: Seq<PreparedV>,
)
    requires
        sid_res_eq(ta, tb),
        rowsa.len() == rowsb.len(),
        forall|j: int| 0 <= j < rowsa.len() ==> (#[trigger] rowsa[j]).id == rowsb[j].id,
    ensures
        rels_all(ta, rowsa, pre) == rels_all(tb, rowsb, pre),
    decreases pre.len(),
{
    if pre.len() > 0 && rowsa.len() > 0 {
        assert(rowsa[0].id == rowsb[0].id);
        lemma_rels_obj_eq(ta, tb, rowsa.first().id, pre.first().fks);
        assert(forall|j: int|
            0 <= j < rowsa.drop_first().len() ==> (#[trigger] rowsa.drop_first()[j]).id
                == rowsb.drop_first()[j].id) by {
            assert(forall|j: int|
                0 <= j < rowsa.drop_first().len() ==> #[trigger] rowsa.drop_first()[j] == rowsa[j
                    + 1]);
            assert(forall|j: int|
                0 <= j < rowsb.drop_first().len() ==> #[trigger] rowsb.drop_first()[j] == rowsb[j
                    + 1]);
        }
        lemma_rels_all_eq(ta, tb, rowsa.drop_first(), rowsb.drop_first(), pre.drop_first());
    }
}

/// Every target of one constraint is covered exactly when none is
/// reported missing.
pub proof fn lemma_missing_targets_char(
    t: Seq<DbObjectV>,
    sids: Seq<Seq<char>>,
    ts: Seq<Seq<char>>,
)
    ensures
        crate::backend::missing_in_targets(t, sids, ts) is None <==> forall|l: int|
            0 <= l < ts.len() ==> (sids.contains(#[trigger] ts[l]) || has_obj_sid(t, ts[l])),
    decreases ts.len(),
{
    if ts.len() > 0 {
        let rest = ts.drop_first();
        lemma_missing_targets_char(t, sids, rest);
        assert(forall|l: int| 0 <= l < rest.len() ==> #[trigger] rest[l] == ts[l + 1]);
        assert(ts[0] == ts.first());
        if crate::backend::missing_in_targets(t, sids, ts) is None {
            assert forall|l: int| 0 <= l < ts.len() implies (sids.contains(#[trigger] ts[l])
                || has_obj_sid(t, ts[l])) by {
                if l > 0 {
                    assert(rest[l - 1] == ts[l]);
                    assert(sids.contains(rest[l - 1]) || has_obj_sid(t, rest[l - 1]));
                }
            }
        }
        if forall|l: int|
            0 <= l < ts.len() ==> (sids.contains(#[trigger] ts[l]) || has_obj_sid(t, ts[l])) {
            assert(sids.contains(ts[0]) || has_obj_sid(t, ts[0]));
            assert forall|l: int| 0 <= l < rest.len() implies (sids.contains(#[trigger] rest[l])
                || has_obj_sid(t, rest[l])) by {
                assert(rest[l] == ts[l + 1]);
                assert(sids.contains(ts[l + 1]) || has_obj_sid(t, ts[l + 1]));
            }
            assert(crate::backend::missing_in_targets(t, sids, rest) is None);
        }
    }
}

pub proof fn lemma_missing_fks_char(
    t: Seq<DbObjectV>,
    sids: Seq<Seq<char>>,
    fks: Seq<(Seq<Seq<char>>, u128)>,
)
    ensures
        crate::backend::missing_in_fks(t, sids, fks) is None <==> forall|k: int|
            0 <= k < fks.len() ==> crate::backend::missing_in_targets(
                t,
                sids,
                (#[trigger] fks[k]).0,
            ) is None,
    decreases fks.len(),
{
    if fks.len() > 0 {
        let rest = fks.drop_first();
        lemma_missing_fks_char(t, sids, rest);
        assert(forall|k: int| 0 <= k < rest.len() ==> #[trigger] rest[k] == fks[k + 1]);
        assert(fks[0] == fks.first());
        if crate::backend::missing_in_fks(t, sids, fks) is None {
            assert forall|k: int| 0 <= k < fks.len() implies crate::backend::missing_in_targets(
                t,
                sids,
                (#[trigger] fks[k]).0,
            ) is None by {
                if k > 0 {
                    assert(rest[k - 1] == fks[k]);
                    assert(crate::backend::missing_in_targets(t, sids, rest[k - 1].0) is None);
                }
            }
        }
        if forall|k: int|
            0 <= k < fks.len() ==> crate::backend::missing_in_targets(
                t,
                sids,
                (#[trigger] fks[k]).0,
            ) is None {
            assert(crate::backend::missing_in_targets(t, sids, fks[0].0) is None);
            assert forall|k: int| 0 <= k < rest.len() implies crate::backend::missing_in_targets(
                t,
                sids,
                (#[trigger] rest[k]).0,
            ) is None by {
                assert(rest[k] == fks[k + 1]);
                assert(crate::backend::missing_in_targets(t, sids, fks[k + 1].0) is None);
            }
            assert(crate::backend::missing_in_fks(t, sids, rest) is None);
        }
    }
}

/// The whole batch's reference check succeeds exactly when every
/// target of every object is covered.
pub proof fn lemma_check_targets_char(t: Seq<DbObjectV>, sids: Seq<Seq<char>>, pre: Seq<PreparedV>)
    ensures
        check_targets(t, sids, pre) is Ok <==> forall|j: int|
            0 <= j < pre.len() ==> crate::backend::missing_in_fks(
                t,
                sids,
                (#[trigger] pre[j]).fks,
            ) is None,
    decreases pre.len(),
{
    if pre.len() > 0 {
        let rest = pre.drop_first();
        lemma_check_targets_char(t, sids, rest);
        assert(forall|j: int| 0 <= j < rest.len() ==> #[trigger] rest[j] == pre[j + 1]);
        assert(pre[0] == pre.first());
        if check_targets(t, sids, pre) is Ok {
            assert forall|j: int| 0 <= j < pre.len() implies crate::backend::missing_in_fks(
                t,
                sids,
                (#[trigger] pre[j]).fks,
            ) is None by {
                if j > 0 {
                    assert(rest[j - 1] == pre[j]);
                    assert(crate::backend::missing_in_fks(t, sids, rest[j - 1].fks) is None);
                }
            }
        }
        if forall|j: int|
            0 <= j < pre.len() ==> crate::backend::missing_in_fks(
                t,
                sids,
                (#[trigger] pre[j]).fks,
            ) is None {
            assert(crate::backend::missing_in_fks(t, sids, pre[0].fks) is None);
            assert forall|j: int| 0 <= j < rest.len() implies crate::backend::missing_in_fks(
                t,
                sids,
                (#[trigger] rest[j]).fks,
            ) is None by {
                assert(rest[j] == pre[j + 1]);
                assert(crate::backend::missing_in_fks(t, sids, pre[j + 1].fks) is None);
            }
            assert(check_targets(t, sids, rest) is Ok);
        }
    }
}

/// A batch insert changes nothing when every listed edge is stored.
pub proof fn lemma_add_missing_noop(t: Seq<Relation>, rels: Seq<Relation>)
    requires
        forall|j: int| 0 <= j < rels.len() ==> t.contains(#[trigger] rels[j]),
    ensures
        add_missing(t, rels) == t,
    decreases rels.len(),
{
    if rels.len() > 0 {
        assert(t.contains(rels[0]));
        assert(forall|j: int|
            0 <= j < rels.drop_first().len() ==> #[trigger] rels.drop_first()[j] == rels[j + 1]);
        lemma_add_missing_noop(t, rels.drop_first());
    }
}

/// A set-based delete changes nothing when it lists no stored edge.
pub proof fn lemma_remove_rels_noop(t: Seq<Relation>, dels: Seq<Relation>)
    requires
        forall|i: int| 0 <= i < t.len() ==> !dels.contains(#[trigger] t[i]),
    ensures
        remove_rels(t, dels) == t,
    decreases t.len(),
{
    if t.len() > 0 {
        assert(forall|i: int|
            0 <= i < t.drop_last().len() ==> #[trigger] t.drop_last()[i] == t[i]);
        lemma_remove_rels_noop(t.drop_last(), dels);
        assert(!dels.contains(t.last())) by {
            assert(t[t.len() - 1] == t.last());
        }
        assert(remove_rels(t, dels) =~= t);
    }
}

/// The working facts behind re-application: the second plan is the
/// first with a newer instant, the second upsert cannot fail, the
/// reference check still passes, and both passes resolve the same
/// desired edges.
#[verifier::rlimit(100)]
pub proof fn lemma_reapply_core(
    s0: StoreV,
    doc: Jv,
    now1: i64,
    ids1: Seq<u128>,
    now2: i64,
    ids2: Seq<u128>,
)
    requires
        wf_objects(s0.objects),
        apply_spec(s0, doc, now1, ids1).result is Ok,
        distinct_sids(prepared_of(s0, doc)),
        fresh_ids_ok(s0.objects, ids1),
        ids1.len() >= prepared_of(s0, doc).len(),
        ids2.len() >= prepared_of(s0, doc).len(),
    ensures
        ({
            let pre = prepared_of(s0, doc);
            let rows1 = rows_of(s0, doc, now1, ids1);
            let t2 = upsert_all(s0.objects, rows1)->Ok_0;
            let rows2 = plan_rows(t2, pre, now2, ids2).0;
            &&& rows1.len() == pre.len()
            &&& rows2.len() == pre.len()
            &&& forall|j: int|
                0 <= j < pre.len() ==> (#[trigger] rows2[j]) == (DbObjectV {
                    updated_at: now2,
                    ..rows1[j]
                })
            &&& upsert_all(t2, rows2) is Ok
            &&& check_targets(t2, batch_sids(pre), pre) is Ok
            &&& rels_all(upsert_all(t2, rows2)->Ok_0, rows2, pre) == rels_all(t2, rows1, pre)
        }),
{
    let e1 = apply_spec(s0, doc, now1, ids1);
    lemma_apply_ok_stages(s0, doc, now1, ids1);
    let objs = norm_doc(doc)->Ok_0;
    let pre = prepared_of(s0, doc);
    let sids = batch_sids(pre);
    let rows1 = rows_of(s0, doc, now1, ids1);
    crate::backend::lemma_validate_all_len(s0.schemas, s0.constraints, objs);
    lemma_plan_rows_good(s0.objects, pre, now1, ids1);
    crate::backend::lemma_plan_rows_len(s0.objects, pre, now1, ids1);
    assert(forall|j: int|
        0 <= j < pre.len() ==> (#[trigger] rows1[j]).string_id == pre[j].string_id);
    assert(rows_good(s0.objects, rows1));
    lemma_upsert_batch(s0.objects, rows1);
    let t2 = crate::queries::upsert_all(s0.objects, rows1)->Ok_0;
    assert(e1.objects == t2);
    // a batch identifier is a row identifier
    assert forall|sid: Seq<char>| #[trigger] rows_have_sid(rows1, sid) implies sids.contains(sid)
        by {
        let j = choose|j: int| 0 <= j < rows1.len() && (#[trigger] rows1[j]).string_id == sid;
        assert(sids[j] == pre[j].string_id);
    }
    assert forall|sid: Seq<char>| #[trigger] sids.contains(sid) implies rows_have_sid(rows1, sid)
        by {
        let j = choose|j: int| 0 <= j < sids.len() && sids[j] == sid;
        assert(rows1[j].string_id == pre[j].string_id);
    }
    // the second pass validates identically and plans pure updates
    assert forall|j: int| 0 <= j < pre.len() implies #[trigger] has_obj_sid(
        t2,
        pre[j].string_id,
    ) && t2[obj_idx_by_sid(t2, pre[j].string_id)] == rows1[j] by {
        assert(rows1[j].string_id == pre[j].string_id);
    }
    let rows2 = plan_rows(t2, pre, now2, ids2).0;
    crate::backend::lemma_plan_rows_len(t2, pre, now2, ids2);
    assert forall|j: int| 0 <= j < pre.len() implies (#[trigger] rows2[j])
        == (DbObjectV { updated_at: now2, ..rows1[j] }) by {
        lemma_plan_rows_index(t2, pre, now2, ids2, j);
        lemma_plan_rows_index(s0.objects, pre, now1, ids1, j);
        assert(rows2[j].id == rows1[j].id && rows2[j].created_at == rows1[j].created_at);
        lemma_plan_rows_row_for(t2, pre, now2, ids2, j);
        lemma_plan_rows_row_for(s0.objects, pre, now1, ids1, j);
    }
    // the second upsert cannot fail and only rewrites updated_at
    assert(rows_good(t2, rows2)) by {
        assert forall|j: int|
            0 <= j < rows2.len() && has_obj_sid(t2, (#[trigger] rows2[j]).string_id) implies {
            let ex = t2[obj_idx_by_sid(t2, rows2[j].string_id)];
            rows2[j].id == ex.id && rows2[j].created_at == ex.created_at
        } by {
            assert(rows2[j].string_id == pre[j].string_id);
        }
        assert forall|j: int| 0 <= j < rows2.len() implies has_obj_sid(
            t2,
            (#[trigger] rows2[j]).string_id,
        ) by {
            assert(rows2[j].string_id == pre[j].string_id);
        }
    }
    lemma_upsert_batch(t2, rows2);
    let t3 = crate::queries::upsert_all(t2, rows2)->Ok_0;
    // the reference check still succeeds
    lemma_check_targets_char(s0.objects, sids, pre);
    lemma_check_targets_char(t2, sids, pre);
    assert forall|j: int| 0 <= j < pre.len() implies crate::backend::missing_in_fks(
        t2,
        sids,
        (#[trigger] pre[j]).fks,
    ) is None by {
        lemma_missing_fks_char(s0.objects, sids, pre[j].fks);
        lemma_missing_fks_char(t2, sids, pre[j].fks);
        assert forall|k: int| 0 <= k < pre[j].fks.len() implies crate::backend::missing_in_targets(
            t2,
            sids,
            (#[trigger] pre[j].fks[k]).0,
        ) is None by {
            lemma_missing_targets_char(s0.objects, sids, pre[j].fks[k].0);
            lemma_missing_targets_char(t2, sids, pre[j].fks[k].0);
            assert forall|l: int| 0 <= l < pre[j].fks[k].0.len() implies (sids.contains(
                #[trigger] pre[j].fks[k].0[l],
            ) || has_obj_sid(t2, pre[j].fks[k].0[l])) by {
                let target = pre[j].fks[k].0[l];
                if !sids.contains(target) {
                    assert(has_obj_sid(s0.objects, target));
                    assert(!rows_have_sid(rows1, target));
                }
            }
        }
    }
    assert(check_targets(t2, sids, pre) is Ok);
    // the desired edges are the same both times
    assert(sid_res_eq(t2, t3)) by {
        assert forall|sid: Seq<char>| (#[trigger] has_obj_sid(t2, sid) <==> has_obj_sid(t3, sid))
            && (has_obj_sid(t2, sid) ==> t2[obj_idx_by_sid(t2, sid)].id == t3[obj_idx_by_sid(
            t3,
            sid,
        )].id) by {
            if rows_have_sid(rows2, sid) {
                let j = choose|j: int|
                    0 <= j < rows2.len() && (#[trigger] rows2[j]).string_id == sid;
                assert(has_obj_sid(t3, sid) && t3[obj_idx_by_sid(t3, sid)] == rows2[j]);
                assert(rows1[j].string_id == sid);
                assert(has_obj_sid(t2, sid) && t2[obj_idx_by_sid(t2, sid)] == rows1[j]);
            } else {
                assert((has_obj_sid(t3, sid) <==> has_obj_sid(t2, sid)) && (has_obj_sid(t2, sid)
                    ==> t3[obj_idx_by_sid(t3, sid)] == t2[obj_idx_by_sid(t2, sid)]));
            }
        }
    }
    lemma_rels_all_eq(t3, t2, rows2, rows1, pre);
    assert(rels_all(t3, rows2, pre) == rels_all(t2, rows1, pre));
}

/// Re-applying the very same document leaves the store as it was, but
/// for the update instants: the second apply succeeds, returns the
/// same objects with the same identities, specifications, annotations
/// and labels, rewrites only `updated_at`, and leaves the relation
/// table exactly unchanged.
#[verifier::rlimit(100)]
pub proof fn law_apply_idempotence(
    s0: StoreV,
    doc: Jv,
    now1: i64,
    ids1: Seq<u128>,
    now2: i64,
    ids2: Seq<u128>,
)
    requires
        wf_objects(s0.objects),
        apply_spec(s0, doc, now1, ids1).result is Ok,
        distinct_sids(prepared_of(s0, doc)),
        fresh_ids_ok(s0.objects, ids1),
        ids1.len() >= prepared_of(s0, doc).len(),
        ids2.len() >= prepared_of(s0, doc).len(),
    ensures
        ({
            let e1 = apply_spec(s0, doc, now1, ids1);
            let s1 = StoreV {
                schemas: s0.schemas,
                constraints: s0.constraints,
                objects: e1.objects,
                relations: e1.relations,
            };
            let e2 = apply_spec(s1, doc, now2, ids2);
            &&& e2.result is Ok
            &&& e2.result->Ok_0.len() == e1.result->Ok_0.len()
            &&& forall|j: int|
                0 <= j < e1.result->Ok_0.len() ==> (#[trigger] e2.result->Ok_0[j])
                    == crate::models::ReturnObjectV { updated_at: now2, ..e1.result->Ok_0[j] }
            &&& e2.relations == e1.relations
        }),
{
    let e1 = apply_spec(s0, doc, now1, ids1);
    let s1 = StoreV {
        schemas: s0.schemas,
        constraints: s0.constraints,
        objects: e1.objects,
        relations: e1.relations,
    };
    lemma_apply_ok_stages(s0, doc, now1, ids1);
    lemma_reapply_core(s0, doc, now1, ids1, now2, ids2);
    let pre = prepared_of(s0, doc);
    let rows1 = rows_of(s0, doc, now1, ids1);
    let t2 = upsert_all(s0.objects, rows1)->Ok_0;
    let rows2 = plan_rows(t2, pre, now2, ids2).0;
    let t3 = upsert_all(t2, rows2)->Ok_0;
    assert(e1.objects == t2);
    assert(prepared_of(s1, doc) == pre);
    assert(rows_of(s1, doc, now2, ids2) == rows2);
    let desired = rels_all(t2, rows1, pre)->Ok_0;
    assert(rels_all(t3, rows2, pre) == rels_all(t2, rows1, pre));
    // both applies write the same object identifiers
    let applied1 = rows1.map_values(|r: DbObjectV| r.id);
    let applied2 = rows2.map_values(|r: DbObjectV| r.id);
    assert(applied2 =~= applied1);
    // the second reconciliation has nothing to delete and nothing to add
    let rel1 = e1.relations;
    let existing2 = filter_rels(rel1, applied1);
    let stale2 = remove_rels(existing2, desired);
    let existing1 = filter_rels(s0.relations, applied1);
    let stale1 = remove_rels(existing1, desired);
    let mid1 = remove_rels(s0.relations, stale1);
    assert(rel1 == add_missing(mid1, desired));
    assert forall|x: Relation| true implies !(#[trigger] stale2.contains(x)) by {
        lemma_remove_rels_mem(existing2, desired, x);
        lemma_filter_rels_mem(rel1, applied1, x);
        lemma_add_missing_mem(mid1, desired, x);
        lemma_remove_rels_mem(s0.relations, stale1, x);
        lemma_remove_rels_mem(existing1, desired, x);
        lemma_filter_rels_mem(s0.relations, applied1, x);
    }
    assert(stale2 =~= Seq::<Relation>::empty()) by {
        if stale2.len() > 0 {
            assert(stale2.contains(stale2[0]));
        }
    }
    lemma_remove_rels_noop(rel1, stale2);
    assert forall|j: int| 0 <= j < desired.len() implies rel1.contains(#[trigger] desired[j]) by {
        lemma_add_missing_mem(mid1, desired, desired[j]);
    }
    lemma_add_missing_noop(rel1, desired);
    let e2 = apply_spec(s1, doc, now2, ids2);
    assert(e2.relations == rel1);
    assert(e2.result == Ok::<_, ErrV>(rows2.map_values(|r: DbObjectV| ret_of(r))));
    assert forall|j: int| 0 <= j < e1.result->Ok_0.len() implies (#[trigger] e2.result->Ok_0[j])
        == (crate::models::ReturnObjectV { updated_at: now2, ..e1.result->Ok_0[j] }) by {
        assert(e1.result->Ok_0[j] == ret_of(rows1[j]));
        assert(e2.result->Ok_0[j] == ret_of(rows2[j]));
    }
}

/// Unfolds one planned row to its `row_for` form.
pub proof fn lemma_plan_rows_row_for(
    t: Seq<DbObjectV>,
    pre: Seq<PreparedV>,
    now: i64,
    ids: Seq<u128>,
    j: int,
)
    requires
        0 <= j < pre.len(),
    ensures
        ({
            let rows = plan_rows(t, pre, now, ids).0;
            &&& rows[j].string_id == pre[j].string_id
            &&& rows[j].api_version == pre[j].api_version
            &&& rows[j].name == pre[j].name
            &&& rows[j].kind == pre[j].kind
            &&& rows[j].updated_at == now
            &&& rows[j].namespace == pre[j].ns
            &&& rows[j].annotations == pre[j].annotations
            &&& rows[j].labels == pre[j].labels
            &&& rows[j].owners == Seq::<u128>::empty()
            &&& rows[j].spec == pre[j].spec
        }),
    decreases pre.len(),
{
    crate::backend::lemma_plan_rows_len(t, pre, now, ids);
    if has_obj_sid(t, pre.first().string_id) {
        crate::backend::lemma_plan_rows_len(t, pre.drop_first(), now, ids);
        if j > 0 {
            lemma_plan_rows_row_for(t, pre.drop_first(), now, ids, j - 1);
        }
    } else {
        crate::backend::lemma_plan_rows_len(t, pre.drop_first(), now, ids.drop_first());
        if j > 0 {
            lemma_plan_rows_row_for(t, pre.drop_first(), now, ids.drop_first(), j - 1);
        }
    }
}

// ---------------------------------------------------------------------
// List envelope override.
// ---------------------------------------------------------------------

/// In a `List` envelope, `object_kind` and `object_api_version`
/// override the corresponding field of every element, whether or not
/// the element carried its own.
pub proof fn law_list_envelope_override(d: Jv, j: int)
    requires
        d matches Jv::Obj(m) && crate::json::obj_get(m, "kind"@) == Some(Jv::Str("List"@)),
        norm_doc(d) is Ok,
        0 <= j < norm_doc(d)->Ok_0.len(),
    ensures
        ({
            let m = d->Obj_0;
            let objs = norm_doc(d)->Ok_0;
            &&& envelope_str(m, "object_kind"@) matches Some(k) ==> objs[j].kind == Some(k)
            &&& envelope_str(m, "object_api_version"@) matches Some(a) ==> objs[j].api_version
                == Some(a)
        }),
{
    let m = d->Obj_0;
    reveal_strlit("kind");
    reveal_strlit("List");
    match crate::json::obj_get(m, "list"@) {
        Some(lv) => {
            match lv {
                Jv::Arr(items) => {
                    let base = norm_list(items)->Ok_0;
                    let objs = norm_doc(d)->Ok_0;
                    assert(objs == apply_envelope(
                        base,
                        envelope_str(m, "object_kind"@),
                        envelope_str(m, "object_api_version"@),
                    ));
                },
                _ => {},
            }
        },
        None => {},
    }
}

// ---------------------------------------------------------------------
// Namespace defaulting.
// ---------------------------------------------------------------------

/// An input without a namespace is validated exactly as the same input
/// with the namespace `"default"`.
pub proof fn law_namespace_defaulting_apply(
    schemas: Seq<crate::data_models::ObjectSchemaV>,
    constraints: Seq<crate::data_models::ForeignKeyConstraintV>,
    o: ObjectV,
)
    requires
        o.namespace is None,
    ensures
        validate_one(schemas, constraints, o) == validate_one(
            schemas,
            constraints,
            ObjectV { namespace: Some("default"@), ..o },
        ),
{
}

/// A delete naming the namespace `"default"` selects the same rows as
/// one naming none.
pub proof fn law_namespace_defaulting_delete(ns: Option<Seq<char>>)
    requires
        ns == Some("default"@) || ns is None,
    ensures
        del_ns(ns) is None,
{
}

// ---------------------------------------------------------------------
// Filter clamp.
// ---------------------------------------------------------------------

/// Whenever a page size is requested, at most 250 rows come back.
/// With no page size requested the whole selection comes back, however
/// large.
pub proof fn law_filter_clamp(t: Seq<DbObjectV>, f: GetObjectsFilterV)
    requires
        f.page_size is Some,
    ensures
        get_spec(t, f).len() <= 250,
{
    let sorted = crate::backend::sort_rows(crate::backend::filter_objs(t, f));
    let paged = page_of(sorted, f.page, f.page_size);
    assert(paged.len() <= 250);
}

} // verus!
